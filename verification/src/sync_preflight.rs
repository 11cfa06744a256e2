//! What is checked before a synchronization changes anything.

use vstd::prelude::*;
use vstd::string::*;

use crate::nodes::Node;
use crate::nodes::NodeBook;
use crate::paths::join_path;
use crate::remote_path::local_path_from_remote_relative;
use crate::remote_path::LocalPaths;
use crate::remote_path::place_under_root;
use crate::remote_path::validate_remote_relative_path;
use crate::sync::sync_error;
use crate::sync::ActionView;
use crate::sync::SyncActionKind;
use crate::sync::SyncError;
use crate::sync::SyncFault;
use crate::sync::SyncPlan;
use crate::sync::SyncProblem;
use crate::sync_scan::join_relative;
use crate::text::contains_char;
use crate::text::same_text;
use crate::text::split_on;
use crate::text_map::TextMap;
use crate::transfer::remote_directory_steps;

verus! {

/// What a plan does to a path, by the indices of its actions.
#[derive(Debug, Clone, Copy, PartialEq, Eq, Structural)]
pub struct PlannedMutation {
    pub delete_file: Option<usize>,
    pub delete_directory: Option<usize>,
    pub create_directory: Option<usize>,
}

pub open spec fn no_mutation() -> PlannedMutation {
    PlannedMutation { delete_file: None, delete_directory: None, create_directory: None }
}

impl Default for PlannedMutation {
    fn default() -> (r: Self)
        ensures
            r == no_mutation(),
    {
        PlannedMutation { delete_file: None, delete_directory: None, create_directory: None }
    }
}

impl PlannedMutation {
    pub open spec fn deletes(self) -> bool {
        self.delete_file is Some || self.delete_directory is Some
    }

    pub open spec fn slot(self, kind: SyncActionKind) -> Option<usize> {
        match kind {
            SyncActionKind::DeleteRemoteFile => self.delete_file,
            SyncActionKind::DeleteRemoteDirectory => self.delete_directory,
            SyncActionKind::CreateRemoteDirectory => self.create_directory,
            SyncActionKind::UploadFile => None,
        }
    }

    pub open spec fn noted(self, kind: SyncActionKind, index: usize) -> PlannedMutation {
        match kind {
            SyncActionKind::DeleteRemoteFile => PlannedMutation {
                delete_file: Some(index),
                ..self
            },
            SyncActionKind::DeleteRemoteDirectory => PlannedMutation {
                delete_directory: Some(index),
                ..self
            },
            SyncActionKind::CreateRemoteDirectory => PlannedMutation {
                create_directory: Some(index),
                ..self
            },
            SyncActionKind::UploadFile => self,
        }
    }

    pub fn has_delete(self) -> (r: bool)
        ensures
            r == self.deletes(),
    {
        self.delete_file.is_some() || self.delete_directory.is_some()
    }

    pub fn deletes_file(self) -> (r: bool)
        ensures
            r == self.delete_file is Some,
    {
        self.delete_file.is_some()
    }

    pub fn deletes_directory(self) -> (r: bool)
        ensures
            r == self.delete_directory is Some,
    {
        self.delete_directory.is_some()
    }

    pub fn creates_directory(self) -> (r: bool)
        ensures
            r == self.create_directory is Some,
    {
        self.create_directory.is_some()
    }

    fn at(self, kind: SyncActionKind) -> (r: Option<usize>)
        ensures
            r == self.slot(kind),
    {
        match kind {
            SyncActionKind::DeleteRemoteFile => self.delete_file,
            SyncActionKind::DeleteRemoteDirectory => self.delete_directory,
            SyncActionKind::CreateRemoteDirectory => self.create_directory,
            SyncActionKind::UploadFile => None,
        }
    }

    fn note(self, kind: SyncActionKind, index: usize) -> (r: Self)
        ensures
            r == self.noted(kind, index),
    {
        let mut r = self;
        match kind {
            SyncActionKind::DeleteRemoteFile => {
                r.delete_file = Some(index);
            },
            SyncActionKind::DeleteRemoteDirectory => {
                r.delete_directory = Some(index);
            },
            SyncActionKind::CreateRemoteDirectory => {
                r.create_directory = Some(index);
            },
            SyncActionKind::UploadFile => {},
        }
        r
    }
}

/// What is planned for a path.
pub open spec fn planned_at(
    mutations: Seq<(Seq<char>, PlannedMutation)>,
    path: Seq<char>,
) -> PlannedMutation {
    match crate::text_map::lookup(mutations, path) {
        Some(m) => m,
        None => no_mutation(),
    }
}

fn mutation_for(mutations: &TextMap<PlannedMutation>, path: &str) -> (r: PlannedMutation)
    ensures
        r == planned_at(mutations.entries(), path@),
{
    match mutations.get(path) {
        Some(m) => *m,
        None => PlannedMutation::default(),
    }
}

/// The plan's effects by path, from action `i` on. A path is deleted or created
/// at most once each way.
pub open spec fn noted_from(
    mutations: Seq<(Seq<char>, PlannedMutation)>,
    actions: Seq<ActionView>,
    i: int,
) -> Result<Seq<(Seq<char>, PlannedMutation)>, SyncFault>
    decreases actions.len() - i,
{
    if i < 0 || i >= actions.len() {
        Ok(mutations)
    } else if actions[i].kind is UploadFile {
        noted_from(mutations, actions, i + 1)
    } else {
        let path = actions[i].path;
        let m = planned_at(mutations, path);
        if m.slot(actions[i].kind) is Some {
            Err(crate::sync::sync_fault(SyncProblem::DuplicateMutation, path))
        } else {
            noted_from(
                crate::text_map::put(mutations, path, m.noted(actions[i].kind, i as usize)),
                actions,
                i + 1,
            )
        }
    }
}

/// What is wrong with the effects on one path: it is deleted both as a file and
/// as a directory, or deleted after it was created.
pub open spec fn mutation_problem(m: PlannedMutation) -> Option<SyncProblem> {
    if m.delete_file is Some && m.delete_directory is Some {
        Some(SyncProblem::ContradictoryDeletes)
    } else {
        match (m.create_directory, if m.delete_file is Some {
            m.delete_file
        } else {
            m.delete_directory
        }) {
            (Some(created), Some(deleted)) if deleted >= created => Some(
                SyncProblem::DeleteAfterCreate,
            ),
            _ => None,
        }
    }
}

pub open spec fn contradiction_from(
    mutations: Seq<(Seq<char>, PlannedMutation)>,
    k: int,
) -> Option<SyncFault>
    decreases mutations.len() - k,
{
    if k < 0 || k >= mutations.len() {
        None
    } else {
        match mutation_problem(mutations[k].1) {
            Some(p) => Some(crate::sync::sync_fault(p, mutations[k].0)),
            None => contradiction_from(mutations, k + 1),
        }
    }
}

pub open spec fn planned_mutations(actions: Seq<ActionView>) -> Result<
    Seq<(Seq<char>, PlannedMutation)>,
    SyncFault,
> {
    match noted_from(Seq::empty(), actions, 0) {
        Err(e) => Err(e),
        Ok(mutations) => match contradiction_from(mutations, 0) {
            Some(e) => Err(e),
            None => Ok(mutations),
        },
    }
}

fn check_mutation(m: PlannedMutation) -> (r: Option<SyncProblem>)
    ensures
        r == mutation_problem(m),
{
    if m.deletes_file() && m.deletes_directory() {
        return Some(SyncProblem::ContradictoryDeletes);
    }
    let deleted = if m.deletes_file() {
        m.delete_file
    } else {
        m.delete_directory
    };
    match (m.create_directory, deleted) {
        (Some(c), Some(d)) => if d >= c {
            Some(SyncProblem::DeleteAfterCreate)
        } else {
            None
        },
        _ => None,
    }
}

/// What a plan does to each path.
pub fn collect_planned_mutations(plan: &SyncPlan) -> (r: Result<
    TextMap<PlannedMutation>,
    SyncError,
>)
    ensures
        match r {
            Ok(m) => planned_mutations(crate::sync::action_views(plan.actions@)) == Ok::<
                Seq<(Seq<char>, PlannedMutation)>,
                SyncFault,
            >(m.entries()),
            Err(e) => planned_mutations(crate::sync::action_views(plan.actions@)) == Err::<
                Seq<(Seq<char>, PlannedMutation)>,
                SyncFault,
            >(e@),
        },
{
    let ghost all = crate::sync::action_views(plan.actions@);
    let mut mutations: TextMap<PlannedMutation> = TextMap::new();
    let mut i: usize = 0;
    while i < plan.actions.len()
        invariant
            all == crate::sync::action_views(plan.actions@),
            i <= plan.actions@.len(),
            noted_from(Seq::empty(), all, 0) == noted_from(mutations.entries(), all, i as int),
        decreases plan.actions@.len() - i,
    {
        assert(all[i as int] == plan.actions@[i as int]@);
        let action = &plan.actions[i];
        if action.kind != SyncActionKind::UploadFile {
            let m = mutation_for(&mutations, action.path.as_str());
            if m.at(action.kind).is_some() {
                return Err(sync_error(SyncProblem::DuplicateMutation, action.path.as_str()));
            }
            let noted = m.note(action.kind, i);
            mutations.insert(action.path.clone(), noted);
        }
        i += 1;
    }
    let ghost found = mutations.entries();
    let mut k: usize = 0;
    while k < mutations.len()
        invariant
            found == mutations.entries(),
            noted_from(Seq::empty(), all, 0) == Ok::<
                Seq<(Seq<char>, PlannedMutation)>,
                SyncFault,
            >(found),
            all == crate::sync::action_views(plan.actions@),
            k <= found.len(),
            contradiction_from(found, 0) == contradiction_from(found, k as int),
        decreases found.len() - k,
    {
        match check_mutation(*mutations.value_at(k)) {
            Some(p) => {
                return Err(sync_error(p, mutations.key_at(k).as_str()));
            },
            None => {},
        }
        k += 1;
    }
    Ok(mutations)
}

/// A path below a directory that will be new cannot be deleted.
pub fn validate_parent_beneath_fresh_ancestor(path: &str, mutation: PlannedMutation) -> (r: Result<
    (),
    SyncError,
>)
    ensures
        match r {
            Ok(()) => fresh_parent_problem(path@, mutation) is None,
            Err(e) => fresh_parent_problem(path@, mutation) == Some(e@),
        },
{
    if mutation.has_delete() {
        return Err(sync_error(SyncProblem::StaleDelete, path));
    }
    Ok(())
}

pub open spec fn fresh_parent_problem(path: Seq<char>, m: PlannedMutation) -> Option<SyncFault> {
    if m.deletes() {
        Some(crate::sync::sync_fault(SyncProblem::StaleDelete, path))
    } else {
        None
    }
}

pub open spec fn fresh_upload_problem(path: Seq<char>, m: PlannedMutation) -> Option<SyncFault> {
    if m.deletes() {
        Some(crate::sync::sync_fault(SyncProblem::StaleDelete, path))
    } else if m.create_directory is Some {
        Some(crate::sync::sync_fault(SyncProblem::UploadOverDirectory, path))
    } else {
        None
    }
}

/// A file below a directory that will be new is neither deleted nor a
/// directory.
pub fn validate_upload_beneath_fresh_ancestor(path: &str, mutation: PlannedMutation) -> (r: Result<
    (),
    SyncError,
>)
    ensures
        match r {
            Ok(()) => fresh_upload_problem(path@, mutation) is None,
            Err(e) => fresh_upload_problem(path@, mutation) == Some(e@),
        },
{
    if mutation.has_delete() {
        return Err(sync_error(SyncProblem::StaleDelete, path));
    }
    if mutation.creates_directory() {
        return Err(sync_error(SyncProblem::UploadOverDirectory, path));
    }
    Ok(())
}

/// What is wrong with sending a file to a path, given what stands there now.
/// What stands there has to be deleted first, as what it is.
pub open spec fn destination_problem(current: Node, m: PlannedMutation) -> Option<SyncProblem> {
    if m.create_directory is Some {
        Some(SyncProblem::UploadOverDirectory)
    } else if current is Missing {
        if m.deletes() {
            Some(SyncProblem::StaleDelete)
        } else {
            None
        }
    } else if current is Directory {
        if m.delete_file is Some {
            Some(SyncProblem::WrongDelete)
        } else if m.delete_directory is Some {
            None
        } else {
            Some(SyncProblem::AtomicOverwrite)
        }
    } else {
        if m.delete_directory is Some {
            Some(SyncProblem::WrongDelete)
        } else if m.delete_file is Some {
            None
        } else {
            Some(SyncProblem::AtomicOverwrite)
        }
    }
}

pub fn validate_final_upload_destination(
    remote_path: &str,
    current: Node,
    mutation: PlannedMutation,
) -> (r: Result<(), SyncError>)
    ensures
        match r {
            Ok(()) => destination_problem(current, mutation) is None,
            Err(e) => e@.subject == remote_path@ && destination_problem(current, mutation) == Some(
                e@.problem,
            ),
        },
{
    if mutation.creates_directory() {
        return Err(sync_error(SyncProblem::UploadOverDirectory, remote_path));
    }
    match current {
        Node::Missing => {
            if mutation.has_delete() {
                return Err(sync_error(SyncProblem::StaleDelete, remote_path));
            }
            Ok(())
        },
        Node::Directory => if mutation.deletes_directory() && !mutation.deletes_file() {
            Ok(())
        } else if mutation.deletes_file() {
            Err(sync_error(SyncProblem::WrongDelete, remote_path))
        } else {
            Err(sync_error(SyncProblem::AtomicOverwrite, remote_path))
        },
        _ => if mutation.deletes_file() && !mutation.deletes_directory() {
            Ok(())
        } else if mutation.deletes_directory() {
            Err(sync_error(SyncProblem::WrongDelete, remote_path))
        } else {
            Err(sync_error(SyncProblem::AtomicOverwrite, remote_path))
        },
    }
}

/// What is wrong with the way to a file to send, from part `i` of its path on.
/// Below a directory that will be new nothing is looked up.
pub open spec fn upload_problem_from(
    root: Seq<char>,
    parts: Seq<Seq<char>>,
    prefix: Seq<char>,
    fresh: bool,
    mutations: Seq<(Seq<char>, PlannedMutation)>,
    book: Seq<(Seq<char>, Node)>,
    i: int,
) -> Option<SyncFault>
    decreases parts.len() - i,
{
    if i < 0 || i >= parts.len() {
        None
    } else {
        let here = crate::sync_scan::relative_join(prefix, parts[i]);
        let m = planned_at(mutations, here);
        let place = crate::remote_path::under_root(root, here);
        if fresh {
            if i + 1 == parts.len() {
                fresh_upload_problem(here, m)
            } else if fresh_parent_problem(here, m) is Some {
                fresh_parent_problem(here, m)
            } else {
                upload_problem_from(root, parts, here, true, mutations, book, i + 1)
            }
        } else {
            match crate::text_map::lookup(book, place) {
                None => Some(crate::sync::sync_fault(SyncProblem::NeedNode, place)),
                Some(node) => if i + 1 == parts.len() {
                    match destination_problem(node, m) {
                        Some(p) => Some(crate::sync::sync_fault(p, place)),
                        None => None,
                    }
                } else if node is Directory {
                    if m.deletes() {
                        Some(crate::sync::sync_fault(SyncProblem::ParentDeleted, place))
                    } else {
                        upload_problem_from(root, parts, here, false, mutations, book, i + 1)
                    }
                } else if node is Missing {
                    if m.deletes() {
                        Some(crate::sync::sync_fault(SyncProblem::StaleDelete, place))
                    } else {
                        upload_problem_from(root, parts, here, true, mutations, book, i + 1)
                    }
                } else if m.delete_file is Some && m.delete_directory is None
                    && m.create_directory is Some {
                    upload_problem_from(root, parts, here, true, mutations, book, i + 1)
                } else {
                    Some(crate::sync::sync_fault(SyncProblem::ParentNotDirectory, place))
                },
            }
        }
    }
}

pub open spec fn upload_problem(
    root: Seq<char>,
    relative: Seq<char>,
    mutations: Seq<(Seq<char>, PlannedMutation)>,
    book: Seq<(Seq<char>, Node)>,
) -> Option<SyncFault> {
    match crate::remote_path::relative_path_problem(relative) {
        Some(p) => Some(crate::sync::sync_fault(SyncProblem::UnsafePath(p), relative)),
        None => upload_problem_from(
            root,
            crate::text::split(relative, '/'),
            Seq::empty(),
            false,
            mutations,
            book,
            0,
        ),
    }
}

/// Checks the way to a file to send, against what stands there now and what the
/// plan does to it before.
pub fn preflight_atomic_upload_path(
    remote_root: &str,
    relative: &str,
    mutations: &TextMap<PlannedMutation>,
    book: &NodeBook,
) -> (r: Result<(), SyncError>)
    ensures
        match r {
            Ok(()) => upload_problem(
                remote_root@,
                relative@,
                mutations.entries(),
                book.entries(),
            ) is None,
            Err(e) => upload_problem(remote_root@, relative@, mutations.entries(), book.entries())
                == Some(e@),
        },
{
    match validate_remote_relative_path(relative) {
        Ok(()) => {},
        Err(e) => {
            return Err(sync_error(SyncProblem::UnsafePath(e), relative));
        },
    }
    let parts = split_on(relative, '/');
    let ghost all = crate::text::views(parts@);
    let ghost (m_all, b_all) = (mutations.entries(), book.entries());
    let mut prefix = String::new();
    assert(prefix@ =~= Seq::<char>::empty());
    let mut fresh = false;
    let mut i: usize = 0;
    while i < parts.len()
        invariant
            all == crate::text::views(parts@),
            m_all == mutations.entries(),
            b_all == book.entries(),
            i <= parts@.len(),
            upload_problem(remote_root@, relative@, m_all, b_all) == upload_problem_from(
                remote_root@,
                all,
                prefix@,
                fresh,
                m_all,
                b_all,
                i as int,
            ),
        decreases parts@.len() - i,
    {
        assert(all[i as int] == parts@[i as int]@);
        let here = join_relative(prefix.as_str(), parts[i].as_str());
        let mutation = mutation_for(mutations, here.as_str());
        let last = i + 1 == parts.len();
        if fresh {
            if last {
                return validate_upload_beneath_fresh_ancestor(here.as_str(), mutation);
            }
            match validate_parent_beneath_fresh_ancestor(here.as_str(), mutation) {
                Ok(()) => {},
                Err(e) => {
                    return Err(e);
                },
            }
        } else {
            let place = place_under_root(remote_root, here.as_str());
            let node = match book.get(place.as_str()) {
                Some(node) => *node,
                None => {
                    return Err(sync_error(SyncProblem::NeedNode, place.as_str()));
                },
            };
            if last {
                return validate_final_upload_destination(place.as_str(), node, mutation);
            }
            match node {
                Node::Directory => {
                    if mutation.has_delete() {
                        return Err(sync_error(SyncProblem::ParentDeleted, place.as_str()));
                    }
                },
                Node::Missing => {
                    if mutation.has_delete() {
                        return Err(sync_error(SyncProblem::StaleDelete, place.as_str()));
                    }
                    fresh = true;
                },
                _ => {
                    if mutation.deletes_file() && !mutation.deletes_directory()
                        && mutation.creates_directory() {
                        fresh = true;
                    } else {
                        return Err(sync_error(SyncProblem::ParentNotDirectory, place.as_str()));
                    }
                },
            }
        }
        prefix = here;
        i += 1;
    }
    Ok(())
}

/// Whether all the steps to the root are there, from step `i` on.
pub open spec fn root_there_from(
    root: Seq<char>,
    steps: Seq<Seq<char>>,
    climbs: bool,
    book: Seq<(Seq<char>, Node)>,
    i: int,
) -> Result<bool, SyncFault>
    decreases steps.len() - i,
{
    if i < 0 || i >= steps.len() {
        if climbs {
            Err(crate::sync::sync_fault(SyncProblem::RootTraversal, root))
        } else {
            Ok(true)
        }
    } else {
        match crate::text_map::lookup(book, steps[i]) {
            None => Err(crate::sync::sync_fault(SyncProblem::NeedNode, steps[i])),
            Some(Node::Directory) => root_there_from(root, steps, climbs, book, i + 1),
            Some(Node::Link) => Err(crate::sync::sync_fault(SyncProblem::RootIsLink, steps[i])),
            Some(Node::Missing) => Ok(false),
            Some(_) => Err(crate::sync::sync_fault(SyncProblem::RootNotDirectory, steps[i])),
        }
    }
}

/// Whether the root is there, reached through directories alone.
pub open spec fn root_there(root: Seq<char>, book: Seq<(Seq<char>, Node)>) -> Result<
    bool,
    SyncFault,
> {
    if root.len() == 0 || root == "."@ || root == "/"@ {
        Ok(true)
    } else if root.contains('\0') {
        Err(crate::sync::sync_fault(SyncProblem::RootNul, root))
    } else {
        let (steps, climbs) = crate::transfer::remote_steps(root);
        root_there_from(root, steps, climbs, book, 0)
    }
}

pub fn remote_root_exists_without_symlinks(root: &str, book: &NodeBook) -> (r: Result<
    bool,
    SyncError,
>)
    ensures
        match r {
            Ok(there) => root_there(root@, book.entries()) == Ok::<bool, SyncFault>(there),
            Err(e) => root_there(root@, book.entries()) == Err::<bool, SyncFault>(e@),
        },
{
    if root.is_empty() || same_text(root, ".") || same_text(root, "/") {
        return Ok(true);
    }
    if contains_char(root, '\0') {
        return Err(sync_error(SyncProblem::RootNul, root));
    }
    let found = remote_directory_steps(root);
    let steps = found.0;
    let climbs = found.1;
    let ghost all = crate::text::views(steps@);
    let ghost b_all = book.entries();
    let mut i: usize = 0;
    while i < steps.len()
        invariant
            all == crate::text::views(steps@),
            b_all == book.entries(),
            i <= steps@.len(),
            root_there(root@, b_all) == root_there_from(root@, all, climbs, b_all, i as int),
        decreases steps@.len() - i,
    {
        assert(all[i as int] == steps@[i as int]@);
        let step = steps[i].as_str();
        match book.get(step) {
            None => {
                return Err(sync_error(SyncProblem::NeedNode, step));
            },
            Some(node) => match *node {
                Node::Directory => {},
                Node::Link => {
                    return Err(sync_error(SyncProblem::RootIsLink, step));
                },
                Node::Missing => {
                    return Ok(false);
                },
                _ => {
                    return Err(sync_error(SyncProblem::RootNotDirectory, step));
                },
            },
        }
        i += 1;
    }
    if climbs {
        return Err(sync_error(SyncProblem::RootTraversal, root));
    }
    Ok(true)
}

/// The first deletion of a plan, from action `i` on.
pub open spec fn first_delete_from(actions: Seq<ActionView>, i: int) -> Option<Seq<char>>
    decreases actions.len() - i,
{
    if i < 0 || i >= actions.len() {
        None
    } else if actions[i].kind is DeleteRemoteFile || actions[i].kind is DeleteRemoteDirectory {
        Some(actions[i].path)
    } else {
        first_delete_from(actions, i + 1)
    }
}

/// What is wrong with the files to send, from action `i` on: of a tree whose
/// root is there, or of one whose root will be new.
pub open spec fn uploads_problem_from(
    root: Seq<char>,
    there: bool,
    actions: Seq<ActionView>,
    mutations: Seq<(Seq<char>, PlannedMutation)>,
    book: Seq<(Seq<char>, Node)>,
    i: int,
) -> Option<SyncFault>
    decreases actions.len() - i,
{
    if i < 0 || i >= actions.len() {
        None
    } else {
        let path = actions[i].path;
        let problem = if !(actions[i].kind is UploadFile) {
            None
        } else if there {
            upload_problem(root, path, mutations, book)
        } else {
            fresh_upload_problem(path, planned_at(mutations, path))
        };
        if problem is Some {
            problem
        } else {
            uploads_problem_from(root, there, actions, mutations, book, i + 1)
        }
    }
}

/// What is wrong with applying a plan without ever replacing a file in place.
pub open spec fn atomic_problem(
    root: Seq<char>,
    actions: Seq<ActionView>,
    book: Seq<(Seq<char>, Node)>,
) -> Option<SyncFault> {
    match planned_mutations(actions) {
        Err(e) => Some(e),
        Ok(mutations) => match root_there(root, book) {
            Err(e) => Some(e),
            Ok(there) => if !there && first_delete_from(actions, 0) is Some {
                Some(
                    crate::sync::sync_fault(
                        SyncProblem::StaleDelete,
                        first_delete_from(actions, 0)->0,
                    ),
                )
            } else {
                uploads_problem_from(root, there, actions, mutations, book, 0)
            },
        },
    }
}

fn first_delete(plan: &SyncPlan) -> (r: Option<String>)
    ensures
        match r {
            Some(path) => first_delete_from(crate::sync::action_views(plan.actions@), 0) == Some(
                path@,
            ),
            None => first_delete_from(crate::sync::action_views(plan.actions@), 0) is None,
        },
{
    let ghost all = crate::sync::action_views(plan.actions@);
    let mut i: usize = 0;
    while i < plan.actions.len()
        invariant
            all == crate::sync::action_views(plan.actions@),
            i <= plan.actions@.len(),
            first_delete_from(all, 0) == first_delete_from(all, i as int),
        decreases plan.actions@.len() - i,
    {
        assert(all[i as int] == plan.actions@[i as int]@);
        let action = &plan.actions[i];
        if action.kind == SyncActionKind::DeleteRemoteFile || action.kind
            == SyncActionKind::DeleteRemoteDirectory {
            return Some(action.path.clone());
        }
        i += 1;
    }
    None
}

/// Checks a plan against what stands at the remote paths now, before anything
/// is changed there. Where something has not been looked up, the error says
/// what.
pub fn preflight_atomic_sync(remote_root: &str, plan: &SyncPlan, book: &NodeBook) -> (r: Result<
    (),
    SyncError,
>)
    ensures
        match r {
            Ok(()) => atomic_problem(
                remote_root@,
                crate::sync::action_views(plan.actions@),
                book.entries(),
            ) is None,
            Err(e) => atomic_problem(
                remote_root@,
                crate::sync::action_views(plan.actions@),
                book.entries(),
            ) == Some(e@),
        },
{
    let mutations = match collect_planned_mutations(plan) {
        Ok(m) => m,
        Err(e) => {
            return Err(e);
        },
    };
    let there = match remote_root_exists_without_symlinks(remote_root, book) {
        Ok(there) => there,
        Err(e) => {
            return Err(e);
        },
    };
    if !there {
        match first_delete(plan) {
            Some(path) => {
                return Err(sync_error(SyncProblem::StaleDelete, path.as_str()));
            },
            None => {},
        }
    }
    let ghost all = crate::sync::action_views(plan.actions@);
    let ghost (m_all, b_all) = (mutations.entries(), book.entries());
    let mut i: usize = 0;
    while i < plan.actions.len()
        invariant
            all == crate::sync::action_views(plan.actions@),
            m_all == mutations.entries(),
            b_all == book.entries(),
            i <= plan.actions@.len(),
            atomic_problem(remote_root@, all, b_all) == uploads_problem_from(
                remote_root@,
                there,
                all,
                m_all,
                b_all,
                i as int,
            ),
        decreases plan.actions@.len() - i,
    {
        assert(all[i as int] == plan.actions@[i as int]@);
        let action = &plan.actions[i];
        if action.kind == SyncActionKind::UploadFile {
            let checked = if there {
                preflight_atomic_upload_path(remote_root, action.path.as_str(), &mutations, book)
            } else {
                let mutation = mutation_for(&mutations, action.path.as_str());
                validate_upload_beneath_fresh_ancestor(action.path.as_str(), mutation)
            };
            match checked {
                Ok(()) => {},
                Err(e) => {
                    return Err(e);
                },
            }
        }
        i += 1;
    }
    Ok(())
}

/// What is wrong with the way to a local file to send, from part `i` of its
/// path on.
pub open spec fn source_problem_from(
    current: Seq<char>,
    parts: Seq<Seq<char>>,
    bytes: u64,
    book: Seq<(Seq<char>, Node)>,
    i: int,
) -> Option<SyncFault>
    decreases parts.len() - i,
{
    if i < 0 || i >= parts.len() {
        None
    } else {
        let here = crate::paths::path_join(current, parts[i]);
        match crate::text_map::lookup(book, here) {
            None => Some(crate::sync::sync_fault(SyncProblem::NeedNode, here)),
            Some(Node::Missing) => Some(
                crate::sync::sync_fault(SyncProblem::SourceMissing, here),
            ),
            Some(Node::Link) => Some(crate::sync::sync_fault(SyncProblem::SourceIsLink, here)),
            Some(node) => if i + 1 == parts.len() {
                match node {
                    Node::File { len } => if len == bytes {
                        None
                    } else {
                        Some(crate::sync::sync_fault(SyncProblem::SourceChanged, here))
                    },
                    _ => Some(crate::sync::sync_fault(SyncProblem::SourceNotFile, here)),
                }
            } else if node is Directory {
                source_problem_from(here, parts, bytes, book, i + 1)
            } else {
                Some(crate::sync::sync_fault(SyncProblem::SourceParent, here))
            },
        }
    }
}

fn preflight_local_sync_source(local_root: &str, relative: &str, bytes: u64, book: &NodeBook) -> (r:
    Result<(), SyncError>)
    ensures
        match r {
            Ok(()) => source_problem_from(
                local_root@,
                crate::text::split(relative@, '/'),
                bytes,
                book.entries(),
                0,
            ) is None,
            Err(e) => source_problem_from(
                local_root@,
                crate::text::split(relative@, '/'),
                bytes,
                book.entries(),
                0,
            ) == Some(e@),
        },
{
    let parts = split_on(relative, '/');
    let ghost all = crate::text::views(parts@);
    let ghost b_all = book.entries();
    let mut current = local_root.to_owned();
    let mut i: usize = 0;
    while i < parts.len()
        invariant
            all == crate::text::views(parts@),
            all == crate::text::split(relative@, '/'),
            b_all == book.entries(),
            i <= parts@.len(),
            source_problem_from(local_root@, all, bytes, b_all, 0) == source_problem_from(
                current@,
                all,
                bytes,
                b_all,
                i as int,
            ),
        decreases parts@.len() - i,
    {
        assert(all[i as int] == parts@[i as int]@);
        let here = join_path(current.as_str(), parts[i].as_str());
        let last = i + 1 == parts.len();
        match book.get(here.as_str()) {
            None => {
                return Err(sync_error(SyncProblem::NeedNode, here.as_str()));
            },
            Some(node) => match *node {
                Node::Missing => {
                    return Err(sync_error(SyncProblem::SourceMissing, here.as_str()));
                },
                Node::Link => {
                    return Err(sync_error(SyncProblem::SourceIsLink, here.as_str()));
                },
                Node::File { len } => {
                    if !last {
                        return Err(sync_error(SyncProblem::SourceParent, here.as_str()));
                    }
                    if len != bytes {
                        return Err(sync_error(SyncProblem::SourceChanged, here.as_str()));
                    }
                },
                Node::Directory => {
                    if last {
                        return Err(sync_error(SyncProblem::SourceNotFile, here.as_str()));
                    }
                },
                Node::Other => {
                    if last {
                        return Err(sync_error(SyncProblem::SourceNotFile, here.as_str()));
                    }
                    return Err(sync_error(SyncProblem::SourceParent, here.as_str()));
                },
            },
        }
        current = here;
        i += 1;
    }
    Ok(())
}

pub open spec fn sources_problem_from(
    root: Seq<char>,
    actions: Seq<ActionView>,
    platform: LocalPaths,
    book: Seq<(Seq<char>, Node)>,
    i: int,
) -> Option<SyncFault>
    decreases actions.len() - i,
{
    if i < 0 || i >= actions.len() {
        None
    } else {
        let path = actions[i].path;
        let problem = if !(actions[i].kind is UploadFile) {
            None
        } else {
            match crate::remote_path::local_path_problem(path, platform) {
                Some(p) => Some(crate::sync::sync_fault(SyncProblem::UnsafePath(p), path)),
                None => source_problem_from(
                    root,
                    crate::text::split(path, '/'),
                    actions[i].bytes,
                    book,
                    0,
                ),
            }
        };
        if problem is Some {
            problem
        } else {
            sources_problem_from(root, actions, platform, book, i + 1)
        }
    }
}

/// Checks that every local file to send is still the one that was planned,
/// reached through directories alone.
pub fn preflight_local_sync_sources(
    local_root: &str,
    plan: &SyncPlan,
    platform: LocalPaths,
    book: &NodeBook,
) -> (r: Result<(), SyncError>)
    ensures
        match r {
            Ok(()) => sources_problem_from(
                local_root@,
                crate::sync::action_views(plan.actions@),
                platform,
                book.entries(),
                0,
            ) is None,
            Err(e) => sources_problem_from(
                local_root@,
                crate::sync::action_views(plan.actions@),
                platform,
                book.entries(),
                0,
            ) == Some(e@),
        },
{
    let ghost all = crate::sync::action_views(plan.actions@);
    let ghost b_all = book.entries();
    let mut i: usize = 0;
    while i < plan.actions.len()
        invariant
            all == crate::sync::action_views(plan.actions@),
            b_all == book.entries(),
            i <= plan.actions@.len(),
            sources_problem_from(local_root@, all, platform, b_all, 0) == sources_problem_from(
                local_root@,
                all,
                platform,
                b_all,
                i as int,
            ),
        decreases plan.actions@.len() - i,
    {
        assert(all[i as int] == plan.actions@[i as int]@);
        let action = &plan.actions[i];
        if action.kind == SyncActionKind::UploadFile {
            let path = action.path.as_str();
            let relative = match local_path_from_remote_relative(path, platform) {
                Ok(relative) => relative,
                Err(e) => {
                    return Err(sync_error(SyncProblem::UnsafePath(e), path));
                },
            };
            match preflight_local_sync_source(local_root, relative.as_str(), action.bytes, book) {
                Ok(()) => {},
                Err(e) => {
                    return Err(e);
                },
            }
        }
        i += 1;
    }
    Ok(())
}

} // verus!
