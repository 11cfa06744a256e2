//! Changes to remote files: what may be changed, and how a tree is removed.

use vstd::prelude::*;
use vstd::string::*;

use crate::model::any_control;
use crate::nodes::Node;
use crate::remote_fs::RemoteDirEntry;
use crate::remote_fs::RemoteFileType;
use crate::text::chars_of;
use crate::text::same_text;
use crate::text::split_on;
use crate::text::starts_with;
use crate::text::text_between;

verus! {

pub const DEFAULT_REMOTE_DELETE_MAX_ENTRIES: usize = 10000;

pub const MAX_REMOTE_DELETE_MAX_ENTRIES: usize = 100000;

#[derive(Debug, Clone, Copy, PartialEq, Eq, Structural)]
pub enum MutationProblem {
    EmptyPath,
    ControlInPath,
    RootPath,
    NoEntryName,
    AmbiguousPart,
    OtherDirectory,
    SamePath,
    TargetExists,
    NotEmpty,
    UnsupportedType,
    NoBudget,
    BudgetTooLarge,
    RootNotDirectory,
    BudgetExceeded,
    TreeChanged,
    EntryChanged,
    CounterOverflow,
}

/// The path without a leading `./` or `/`.
pub open spec fn path_body(path: Seq<char>) -> Seq<char> {
    if "./"@.is_prefix_of(path) {
        path.skip(2)
    } else if path.len() > 0 && path[0] == '/' {
        path.skip(1)
    } else {
        path
    }
}

pub open spec fn is_ambiguous(part: Seq<char>) -> bool {
    part.len() == 0 || part == "."@ || part == ".."@
}

pub open spec fn has_ambiguous(parts: Seq<Seq<char>>) -> bool {
    exists|i: int| 0 <= i < parts.len() && is_ambiguous(#[trigger] parts[i])
}

/// What is wrong with a path of an entry that is to be changed.
pub open spec fn mutation_path_problem(path: Seq<char>) -> Option<MutationProblem> {
    let body = path_body(path);
    if path.len() == 0 {
        Some(MutationProblem::EmptyPath)
    } else if crate::model::has_control(path) {
        Some(MutationProblem::ControlInPath)
    } else if path == "/"@ || path == "."@ {
        Some(MutationProblem::RootPath)
    } else if body.len() == 0 || body.last() == '/' {
        Some(MutationProblem::NoEntryName)
    } else if has_ambiguous(crate::text::split(body, '/')) {
        Some(MutationProblem::AmbiguousPart)
    } else {
        None
    }
}

/// Checks a path of an entry that is to be changed: it names one entry, and
/// holds no part that could be read in two ways.
pub fn validate_mutation_path(path: &str) -> (r: Result<(), MutationProblem>)
    ensures
        match r {
            Ok(()) => mutation_path_problem(path@) is None,
            Err(e) => mutation_path_problem(path@) == Some(e),
        },
{
    if path.is_empty() {
        return Err(MutationProblem::EmptyPath);
    }
    if any_control(path) {
        return Err(MutationProblem::ControlInPath);
    }
    if same_text(path, "/") || same_text(path, ".") {
        return Err(MutationProblem::RootPath);
    }
    let chars = chars_of(path);
    proof {
        reveal_strlit("./");
    }
    let from: usize = if starts_with(path, "./") {
        2
    } else if chars[0] == '/' {
        1
    } else {
        0
    };
    let body = text_between(chars.as_slice(), from, chars.len());
    assert(body@ =~= path_body(path@));
    let body_chars = chars_of(body.as_str());
    if body_chars.len() == 0 || body_chars[body_chars.len() - 1] == '/' {
        return Err(MutationProblem::NoEntryName);
    }
    let parts = split_on(body.as_str(), '/');
    let ghost all = crate::text::views(parts@);
    let mut i: usize = 0;
    while i < parts.len()
        invariant
            all == crate::text::views(parts@),
            all == crate::text::split(path_body(path@), '/'),
            path@.len() > 0,
            !crate::model::has_control(path@),
            path@ != "/"@ && path@ != "."@,
            path_body(path@).len() > 0,
            path_body(path@).last() != '/',
            i <= parts@.len(),
            forall|k: int| 0 <= k < i ==> !is_ambiguous(#[trigger] all[k]),
        decreases parts@.len() - i,
    {
        assert(all[i as int] == parts@[i as int]@);
        let part = parts[i].as_str();
        if part.is_empty() || same_text(part, ".") || same_text(part, "..") {
            assert(is_ambiguous(all[i as int]));
            proof {
                assert(has_ambiguous(all));
            }
            return Err(MutationProblem::AmbiguousPart);
        }
        i += 1;
    }
    assert(!has_ambiguous(all));
    Ok(())
}

/// The directory that a path is in.
pub open spec fn parent_of(path: Seq<char>) -> Seq<char> {
    let p = crate::target::last_position(path, '/');
    if p < 0 {
        "."@
    } else if p == 0 {
        "/"@
    } else {
        path.take(p)
    }
}

pub fn remote_parent(path: &str) -> (r: String)
    ensures
        r@ == parent_of(path@),
{
    let chars = chars_of(path);
    match crate::target::last_index(chars.as_slice(), '/') {
        None => ".".to_owned(),
        Some(0) => "/".to_owned(),
        Some(p) => {
            let parent = text_between(chars.as_slice(), 0, p);
            assert(parent@ =~= path@.take(p as int));
            parent
        },
    }
}

pub fn ensure_same_parent(source: &str, destination: &str) -> (r: Result<(), MutationProblem>)
    ensures
        r == (if parent_of(source@) == parent_of(destination@) {
            Ok::<(), MutationProblem>(())
        } else {
            Err(MutationProblem::OtherDirectory)
        }),
{
    let a = remote_parent(source);
    let b = remote_parent(destination);
    if same_text(a.as_str(), b.as_str()) {
        Ok(())
    } else {
        Err(MutationProblem::OtherDirectory)
    }
}

/// What speaks against renaming, before the server is asked.
pub open spec fn rename_problem(source: Seq<char>, destination: Seq<char>) -> Option<
    MutationProblem,
> {
    if mutation_path_problem(source) is Some {
        mutation_path_problem(source)
    } else if mutation_path_problem(destination) is Some {
        mutation_path_problem(destination)
    } else if parent_of(source) != parent_of(destination) {
        Some(MutationProblem::OtherDirectory)
    } else if source == destination {
        Some(MutationProblem::SamePath)
    } else {
        None
    }
}

/// Checks a rename: both names are in one directory, and differ.
pub fn check_rename(source: &str, destination: &str) -> (r: Result<(), MutationProblem>)
    ensures
        match r {
            Ok(()) => rename_problem(source@, destination@) is None,
            Err(e) => rename_problem(source@, destination@) == Some(e),
        },
{
    validate_mutation_path(source)?;
    validate_mutation_path(destination)?;
    ensure_same_parent(source, destination)?;
    if same_text(source, destination) {
        return Err(MutationProblem::SamePath);
    }
    Ok(())
}

/// A new entry must not take the place of another, be it a link.
pub fn check_vacant(target: Node) -> (r: Result<(), MutationProblem>)
    ensures
        r == (if target is Missing {
            Ok::<(), MutationProblem>(())
        } else {
            Err(MutationProblem::TargetExists)
        }),
{
    match target {
        Node::Missing => Ok(()),
        _ => Err(MutationProblem::TargetExists),
    }
}

/// How one entry is removed.
#[derive(Debug, Clone, Copy, PartialEq, Eq, Structural)]
pub enum Removal {
    RemoveFile,
    RemoveDirectory,
}

/// How one entry is removed, given how many entries it has if it is a
/// directory.
pub open spec fn removal_of(file_type: RemoteFileType, entries: nat) -> Result<
    Removal,
    MutationProblem,
> {
    match file_type {
        RemoteFileType::File => Ok(Removal::RemoveFile),
        RemoteFileType::Symlink => Ok(Removal::RemoveFile),
        RemoteFileType::Directory => if entries == 0 {
            Ok(Removal::RemoveDirectory)
        } else {
            Err(MutationProblem::NotEmpty)
        },
        RemoteFileType::Other => Err(MutationProblem::UnsupportedType),
    }
}

/// How one entry is removed. Links are removed, not followed; a directory is
/// removed only where it is empty.
pub fn plan_removal(file_type: RemoteFileType, entries: usize) -> (r: Result<
    Removal,
    MutationProblem,
>)
    ensures
        r == removal_of(file_type, entries as nat),
{
    match file_type {
        RemoteFileType::File => Ok(Removal::RemoveFile),
        RemoteFileType::Symlink => Ok(Removal::RemoveFile),
        RemoteFileType::Directory => if entries == 0 {
            Ok(Removal::RemoveDirectory)
        } else {
            Err(MutationProblem::NotEmpty)
        },
        RemoteFileType::Other => Err(MutationProblem::UnsupportedType),
    }
}

#[derive(Debug, Clone, Copy, PartialEq, Eq, Structural)]
pub struct RemoteDeleteOptions {
    pub max_entries: usize,
}

impl Default for RemoteDeleteOptions {
    fn default() -> (r: Self)
        ensures
            r.max_entries == DEFAULT_REMOTE_DELETE_MAX_ENTRIES,
    {
        RemoteDeleteOptions { max_entries: DEFAULT_REMOTE_DELETE_MAX_ENTRIES }
    }
}

impl RemoteDeleteOptions {
    pub fn validated(self) -> (r: Result<Self, MutationProblem>)
        ensures
            r == (if self.max_entries == 0 {
                Err::<Self, MutationProblem>(MutationProblem::NoBudget)
            } else if self.max_entries > MAX_REMOTE_DELETE_MAX_ENTRIES {
                Err(MutationProblem::BudgetTooLarge)
            } else {
                Ok(self)
            }),
    {
        if self.max_entries == 0 {
            return Err(MutationProblem::NoBudget);
        }
        if self.max_entries > MAX_REMOTE_DELETE_MAX_ENTRIES {
            return Err(MutationProblem::BudgetTooLarge);
        }
        Ok(self)
    }
}

#[derive(Debug, Clone, PartialEq, Eq)]
pub struct RemoteDeleteEntry {
    pub path: String,
    pub file_type: RemoteFileType,
}

#[verifier::ext_equal]
pub struct DeleteEntryView {
    pub path: Seq<char>,
    pub file_type: RemoteFileType,
}

impl View for RemoteDeleteEntry {
    type V = DeleteEntryView;

    open spec fn view(&self) -> DeleteEntryView {
        DeleteEntryView { path: self.path@, file_type: self.file_type }
    }
}

pub open spec fn delete_entry_views(entries: Seq<RemoteDeleteEntry>) -> Seq<DeleteEntryView> {
    entries.map_values(|e: RemoteDeleteEntry| e@)
}

/// What the removal of a tree takes away. Every entry stands behind the
/// directory that it is in.
#[derive(Debug, Clone, PartialEq, Eq)]
pub struct RemoteDeletePlan {
    pub root: String,
    pub files: u64,
    pub directories: u64,
    pub symlinks: u64,
    pub entries: Vec<RemoteDeleteEntry>,
}

#[verifier::ext_equal]
pub struct DeletePlanView {
    pub root: Seq<char>,
    pub files: u64,
    pub directories: u64,
    pub symlinks: u64,
    pub entries: Seq<DeleteEntryView>,
}

impl View for RemoteDeletePlan {
    type V = DeletePlanView;

    open spec fn view(&self) -> DeletePlanView {
        DeletePlanView {
            root: self.root@,
            files: self.files,
            directories: self.directories,
            symlinks: self.symlinks,
            entries: delete_entry_views(self.entries@),
        }
    }
}

#[derive(Debug, Clone, Copy, PartialEq, Eq, Structural)]
pub struct RemoteDeleteSummary {
    pub files: u64,
    pub directories: u64,
    pub symlinks: u64,
}

impl Default for RemoteDeleteSummary {
    fn default() -> (r: Self)
        ensures
            r == (RemoteDeleteSummary { files: 0, directories: 0, symlinks: 0 }),
    {
        RemoteDeleteSummary { files: 0, directories: 0, symlinks: 0 }
    }
}

impl RemoteDeletePlan {
    pub fn total_entries(&self) -> (r: usize)
        ensures
            r == self@.entries.len(),
    {
        self.entries.len()
    }

    /// The plans are the same, entry for entry.
    pub fn same(&self, other: &RemoteDeletePlan) -> (r: bool)
        ensures
            r == (self@ == other@),
    {
        assert(self@.entries.len() == self.entries@.len());
        assert(other@.entries.len() == other.entries@.len());
        if !(same_text(self.root.as_str(), other.root.as_str()) && self.files == other.files
            && self.directories == other.directories && self.symlinks == other.symlinks
            && self.entries.len() == other.entries.len()) {
            return false;
        }
        let ghost a = self@.entries;
        let ghost b = other@.entries;
        let mut i: usize = 0;
        while i < self.entries.len()
            invariant
                a == self@.entries,
                b == other@.entries,
                self.entries@.len() == other.entries@.len(),
                i <= self.entries@.len(),
                forall|k: int| 0 <= k < i ==> a[k] == b[k],
            decreases self.entries@.len() - i,
        {
            assert(a[i as int] == self.entries@[i as int]@);
            assert(b[i as int] == other.entries@[i as int]@);
            if !(same_text(self.entries[i].path.as_str(), other.entries[i].path.as_str())
                && self.entries[i].file_type == other.entries[i].file_type) {
                assert(a[i as int] != b[i as int]);
                return false;
            }
            i += 1;
        }
        assert(self@ =~= other@);
        true
    }

    /// What the removal has taken away once it is done.
    pub fn summary(&self) -> (r: RemoteDeleteSummary)
        ensures
            r == (RemoteDeleteSummary {
                files: self.files,
                directories: self.directories,
                symlinks: self.symlinks,
            }),
    {
        RemoteDeleteSummary {
            files: self.files,
            directories: self.directories,
            symlinks: self.symlinks,
        }
    }

    /// The entry that is removed at this step: the last one comes first.
    pub fn removal(&self, step: usize) -> (r: Option<&RemoteDeleteEntry>)
        ensures
            match r {
                Some(entry) => step < self@.entries.len() && entry@ == self@.entries[
                self@.entries.len() - 1 - step],
                None => step >= self@.entries.len(),
            },
    {
        let count = self.entries.len();
        if step < count {
            assert(self@.entries[count - 1 - step] == self.entries@[count - 1 - step]@);
            Some(&self.entries[count - 1 - step])
        } else {
            None
        }
    }

    /// Checks an approved plan before anything is removed: it keeps within the
    /// budget, and the tree is still the one that was planned for.
    pub fn approve(&self, current: &RemoteDeletePlan, options: RemoteDeleteOptions) -> (r: Result<
        (),
        MutationProblem,
    >)
        ensures
            r == (if self@.entries.len() > options.max_entries {
                Err::<(), MutationProblem>(MutationProblem::BudgetExceeded)
            } else if current@ != self@ {
                Err(MutationProblem::TreeChanged)
            } else {
                Ok(())
            }),
    {
        if self.total_entries() > options.max_entries {
            return Err(MutationProblem::BudgetExceeded);
        }
        if !current.same(self) {
            return Err(MutationProblem::TreeChanged);
        }
        Ok(())
    }
}

/// How a planned entry is removed, given what stands there now.
pub fn check_planned_removal(planned: RemoteFileType, current: RemoteFileType, entries: usize) -> (r:
    Result<Removal, MutationProblem>)
    ensures
        r == (if planned != current {
            Err::<Removal, MutationProblem>(MutationProblem::EntryChanged)
        } else {
            removal_of(planned, entries as nat)
        }),
{
    if planned != current {
        return Err(MutationProblem::EntryChanged);
    }
    plan_removal(planned, entries)
}

/// The plan with one more entry.
pub open spec fn with_entry(
    plan: DeletePlanView,
    path: Seq<char>,
    file_type: RemoteFileType,
    max_entries: usize,
) -> Result<DeletePlanView, MutationProblem> {
    let entries = plan.entries.push(DeleteEntryView { path, file_type });
    let count = match file_type {
        RemoteFileType::Directory => plan.directories,
        RemoteFileType::File => plan.files,
        _ => plan.symlinks,
    };
    if file_type is Other {
        Err(MutationProblem::UnsupportedType)
    } else if count == u64::MAX {
        Err(MutationProblem::CounterOverflow)
    } else if entries.len() > max_entries {
        Err(MutationProblem::BudgetExceeded)
    } else {
        Ok(
            match file_type {
                RemoteFileType::Directory => DeletePlanView {
                    directories: (plan.directories + 1) as u64,
                    entries,
                    ..plan
                },
                RemoteFileType::File => DeletePlanView {
                    files: (plan.files + 1) as u64,
                    entries,
                    ..plan
                },
                _ => DeletePlanView { symlinks: (plan.symlinks + 1) as u64, entries, ..plan },
            },
        )
    }
}

/// Plan and directories that are left, with the entries of a directory from
/// index `i` on.
pub open spec fn with_entries(
    plan: DeletePlanView,
    stack: Seq<Seq<char>>,
    entries: Seq<crate::remote_fs::DirEntryView>,
    i: int,
    max_entries: usize,
) -> Result<(DeletePlanView, Seq<Seq<char>>), MutationProblem>
    decreases entries.len() - i,
{
    if i < 0 || i >= entries.len() {
        Ok((plan, stack))
    } else {
        let file_type = entries[i].metadata.file_type;
        match with_entry(plan, entries[i].path, file_type, max_entries) {
            Err(e) => Err(e),
            Ok(next) => with_entries(
                next,
                if file_type is Directory {
                    stack.push(entries[i].path)
                } else {
                    stack
                },
                entries,
                i + 1,
                max_entries,
            ),
        }
    }
}

/// A plan that is being made: directories are listed one after the other, and
/// their entries taken in.
#[derive(Debug, PartialEq, Eq)]
pub struct DeletePlanner {
    pub plan: RemoteDeletePlan,
    pub stack: Vec<String>,
    pub max_entries: usize,
}

#[verifier::ext_equal]
pub struct PlannerView {
    pub plan: DeletePlanView,
    pub stack: Seq<Seq<char>>,
    pub max_entries: usize,
}

impl View for DeletePlanner {
    type V = PlannerView;

    open spec fn view(&self) -> PlannerView {
        PlannerView {
            plan: self.plan@,
            stack: crate::text::views(self.stack@),
            max_entries: self.max_entries,
        }
    }
}

pub open spec fn root_plan(root: Seq<char>) -> DeletePlanView {
    DeletePlanView {
        root,
        files: 0,
        directories: 1,
        symlinks: 0,
        entries: seq![DeleteEntryView { path: root, file_type: RemoteFileType::Directory }],
    }
}

impl DeletePlanner {
    /// Starts a plan for a directory. A link to one is not a directory.
    pub fn start(root: &str, root_type: RemoteFileType, options: RemoteDeleteOptions) -> (r: Result<
        Self,
        MutationProblem,
    >)
        ensures
            match r {
                Ok(planner) => root_type is Directory && options.max_entries >= 1 && planner@ == (
                PlannerView {
                    plan: root_plan(root@),
                    stack: seq![root@],
                    max_entries: options.max_entries,
                }),
                Err(e) => if !(root_type is Directory) {
                    e == MutationProblem::RootNotDirectory
                } else {
                    options.max_entries == 0 && e == MutationProblem::BudgetExceeded
                },
            },
    {
        match root_type {
            RemoteFileType::Directory => {},
            _ => {
                return Err(MutationProblem::RootNotDirectory);
            },
        }
        if options.max_entries == 0 {
            return Err(MutationProblem::BudgetExceeded);
        }
        let mut entries: Vec<RemoteDeleteEntry> = Vec::new();
        entries.push(
            RemoteDeleteEntry { path: root.to_owned(), file_type: RemoteFileType::Directory },
        );
        let mut stack: Vec<String> = Vec::new();
        stack.push(root.to_owned());
        assert(crate::text::views(stack@) =~= seq![root@]);
        let plan = RemoteDeletePlan {
            root: root.to_owned(),
            files: 0,
            directories: 1,
            symlinks: 0,
            entries,
        };
        assert(plan@ =~= root_plan(root@));
        Ok(DeletePlanner { plan, stack, max_entries: options.max_entries })
    }

    /// The directory to list next; nothing once the plan is complete.
    pub fn next_directory(&mut self) -> (r: Option<String>)
        ensures
            match r {
                Some(path) => old(self)@.stack.len() > 0 && path@ == old(self)@.stack.last()
                    && final(self)@ == (PlannerView {
                    stack: old(self)@.stack.drop_last(),
                    ..old(self)@
                }),
                None => old(self)@.stack.len() == 0 && final(self)@ == old(self)@,
            },
    {
        let ghost before = self@;
        if self.stack.len() == 0 {
            return None;
        }
        assert(before.stack.last() == self.stack@[self.stack@.len() - 1]@);
        let top = self.stack.pop();
        assert(self@.stack =~= before.stack.drop_last());
        top
    }

    fn take_entry(&mut self, path: &str, file_type: RemoteFileType) -> (r: Result<
        (),
        MutationProblem,
    >)
        ensures
            final(self).max_entries == old(self).max_entries,
            match r {
                Ok(()) => {
                    &&& with_entry(old(self)@.plan, path@, file_type, old(self).max_entries)
                        == Ok::<DeletePlanView, MutationProblem>(final(self)@.plan)
                    &&& final(self)@.stack == (if file_type is Directory {
                        old(self)@.stack.push(path@)
                    } else {
                        old(self)@.stack
                    })
                },
                Err(e) => {
                    &&& with_entry(old(self)@.plan, path@, file_type, old(self).max_entries)
                        == Err::<DeletePlanView, MutationProblem>(e)
                    &&& final(self)@ == old(self)@
                },
            },
    {
        let ghost before = self@;
        let count = match file_type {
            RemoteFileType::Directory => self.plan.directories,
            RemoteFileType::File => self.plan.files,
            RemoteFileType::Symlink => self.plan.symlinks,
            RemoteFileType::Other => {
                return Err(MutationProblem::UnsupportedType);
            },
        };
        if count == u64::MAX {
            return Err(MutationProblem::CounterOverflow);
        }
        if self.plan.entries.len() >= self.max_entries {
            return Err(MutationProblem::BudgetExceeded);
        }
        match file_type {
            RemoteFileType::Directory => {
                self.plan.directories = count + 1;
                let kept = path.to_owned();
                proof {
                    crate::text::lemma_views_push(self.stack@, kept);
                }
                self.stack.push(kept);
            },
            RemoteFileType::File => {
                self.plan.files = count + 1;
            },
            _ => {
                self.plan.symlinks = count + 1;
            },
        }
        self.plan.entries.push(RemoteDeleteEntry { path: path.to_owned(), file_type });
        assert(self@.plan.entries =~= before.plan.entries.push(
            DeleteEntryView { path: path@, file_type },
        ));
        Ok(())
    }

    /// Takes in the entries of the directory that was listed. Where one cannot
    /// be taken in, none is.
    pub fn take_entries(&mut self, entries: &Vec<RemoteDirEntry>) -> (r: Result<
        (),
        MutationProblem,
    >)
        ensures
            final(self).max_entries == old(self).max_entries,
            match r {
                Ok(()) => with_entries(
                    old(self)@.plan,
                    old(self)@.stack,
                    crate::remote_fs::entry_views(entries@),
                    0,
                    old(self).max_entries,
                ) == Ok::<(DeletePlanView, Seq<Seq<char>>), MutationProblem>(
                    (final(self)@.plan, final(self)@.stack),
                ),
                Err(e) => {
                    &&& with_entries(
                        old(self)@.plan,
                        old(self)@.stack,
                        crate::remote_fs::entry_views(entries@),
                        0,
                        old(self).max_entries,
                    ) == Err::<(DeletePlanView, Seq<Seq<char>>), MutationProblem>(e)
                    &&& final(self)@ == old(self)@
                },
            },
    {
        let ghost all = crate::remote_fs::entry_views(entries@);
        let ghost start = self@;
        let files = self.plan.files;
        let directories = self.plan.directories;
        let symlinks = self.plan.symlinks;
        let planned = self.plan.entries.len();
        let waiting = self.stack.len();
        let mut i: usize = 0;
        assert(start.plan.entries.take(planned as int) =~= start.plan.entries);
        assert(start.stack.take(waiting as int) =~= start.stack);
        while i < entries.len()
            invariant
                start == old(self)@,
                all == crate::remote_fs::entry_views(entries@),
                i <= entries@.len(),
                self.max_entries == start.max_entries,
                files == start.plan.files,
                directories == start.plan.directories,
                symlinks == start.plan.symlinks,
                planned == start.plan.entries.len(),
                waiting == start.stack.len(),
                self@.plan.root == start.plan.root,
                planned <= self.plan.entries@.len(),
                waiting <= self.stack@.len(),
                self@.plan.entries.take(planned as int) == start.plan.entries,
                self@.stack.take(waiting as int) == start.stack,
                with_entries(start.plan, start.stack, all, 0, start.max_entries) == with_entries(
                    self@.plan,
                    self@.stack,
                    all,
                    i as int,
                    start.max_entries,
                ),
            decreases entries@.len() - i,
        {
            assert(all[i as int] == entries@[i as int]@);
            let ghost before = self@;
            match self.take_entry(entries[i].path.as_str(), entries[i].metadata.file_type) {
                Ok(()) => {},
                Err(e) => {
                    self.plan.files = files;
                    self.plan.directories = directories;
                    self.plan.symlinks = symlinks;
                    self.plan.entries.truncate(planned);
                    self.stack.truncate(waiting);
                    assert(self@.plan.entries =~= before.plan.entries.take(planned as int));
                    assert(self@.stack =~= before.stack.take(waiting as int));
                    return Err(e);
                },
            }
            assert(self@.plan.entries.take(planned as int) =~= before.plan.entries.take(
                planned as int,
            ));
            assert(before.stack.len() <= self@.stack.len());
            assert(self@.stack.take(waiting as int) =~= before.stack.take(waiting as int));
            i += 1;
        }
        Ok(())
    }
}

/// Every entry of a plan but the root is that of a directory which stands before
/// it.
pub open spec fn parents_first(plan: DeletePlanView) -> bool {
    forall|i: int| 0 < i < plan.entries.len() ==> has_parent_before(plan, i)
}

pub open spec fn has_parent_before(plan: DeletePlanView, i: int) -> bool {
    exists|j: int, name: Seq<char>|
        #![trigger crate::remote_fs::child_path(plan.entries[j].path, name)]
        0 <= j < i && plan.entries[j].file_type is Directory && plan.entries[i].path
            == crate::remote_fs::child_path(plan.entries[j].path, name)
}

/// The plan counts each of its entries once.
pub open spec fn counts_entries(plan: DeletePlanView) -> bool {
    plan.entries.len() == plan.files + plan.directories + plan.symlinks
}

/// While a plan is made it stays in order: where the entries of one of its
/// directories are taken in, each stands behind that directory; every entry is
/// counted, none is of a type that cannot be removed, and the budget is kept.
pub proof fn plans_stay_in_order(
    plan: DeletePlanView,
    stack: Seq<Seq<char>>,
    directory: int,
    entries: Seq<crate::remote_fs::DirEntryView>,
    i: int,
    max_entries: usize,
)
    requires
        parents_first(plan),
        counts_entries(plan),
        plan.entries.len() <= max_entries,
        0 <= directory < plan.entries.len(),
        plan.entries[directory].file_type is Directory,
        0 <= i <= entries.len(),
        forall|k: int|
            0 <= k < entries.len() ==> (#[trigger] entries[k]).path == crate::remote_fs::child_path(
                plan.entries[directory].path,
                entries[k].name,
            ),
    ensures
        with_entries(plan, stack, entries, i, max_entries) matches Ok((after, _)) ==> {
            &&& parents_first(after)
            &&& counts_entries(after)
            &&& after.entries.len() <= max_entries
            &&& after.root == plan.root
            &&& plan.entries.is_prefix_of(after.entries)
        },
    decreases entries.len() - i,
{
    if i < entries.len() {
        let file_type = entries[i].metadata.file_type;
        if let Ok(next) = with_entry(plan, entries[i].path, file_type, max_entries) {
            let n = plan.entries.len() as int;
            assert forall|k: int| 0 < k < next.entries.len() implies has_parent_before(next, k) by {
                if k == n {
                    assert(next.entries[directory] == plan.entries[directory]);
                    assert(next.entries[k].path == crate::remote_fs::child_path(
                        next.entries[directory].path,
                        entries[i].name,
                    ));
                } else {
                    assert(has_parent_before(plan, k));
                    let (j, name) = choose|j: int, name: Seq<char>|
                        #![trigger crate::remote_fs::child_path(plan.entries[j].path, name)]
                        0 <= j < k && plan.entries[j].file_type is Directory && plan.entries[k].path
                            == crate::remote_fs::child_path(plan.entries[j].path, name);
                    assert(next.entries[j] == plan.entries[j]);
                    assert(next.entries[k].path == crate::remote_fs::child_path(
                        next.entries[j].path,
                        name,
                    ));
                }
            }
            let rest = if file_type is Directory {
                stack.push(entries[i].path)
            } else {
                stack
            };
            assert(next.entries[directory] == plan.entries[directory]);
            plans_stay_in_order(next, rest, directory, entries, i + 1, max_entries);
        }
    }
}

/// Removal takes entries away before the directories that they are in.
pub proof fn removal_empties_directories_first(plan: DeletePlanView, step: int)
    requires
        parents_first(plan),
        0 <= step < plan.entries.len() - 1,
    ensures
        exists|later: int, name: Seq<char>|
            step < later < plan.entries.len() && plan.entries[plan.entries.len() - 1
                - step].path == #[trigger] crate::remote_fs::child_path(
                plan.entries[plan.entries.len() - 1 - later].path,
                name,
            ),
{
    let i = plan.entries.len() - 1 - step;
    assert(has_parent_before(plan, i));
    let (j, name) = choose|j: int, name: Seq<char>|
        #![trigger crate::remote_fs::child_path(plan.entries[j].path, name)]
        0 <= j < i && plan.entries[j].file_type is Directory && plan.entries[i].path
            == crate::remote_fs::child_path(plan.entries[j].path, name);
    let later = plan.entries.len() - 1 - j;
    assert(plan.entries[plan.entries.len() - 1 - later].path == plan.entries[j].path);
    assert(plan.entries[i].path == crate::remote_fs::child_path(
        plan.entries[plan.entries.len() - 1 - later].path,
        name,
    ));
}

} // verus!
