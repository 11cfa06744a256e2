//! Making a remote tree match a local one.

use vstd::prelude::*;
use vstd::string::*;

use crate::remote_path::local_path_from_remote_relative;
use crate::remote_path::LocalPaths;
use crate::remote_path::RemotePathProblem;
use crate::text::joined3;
use crate::text::less_text;
use crate::text::split_on;
use crate::text_map::TextMap;

verus! {

#[derive(Debug, Clone, Copy, PartialEq, Eq, Structural)]
pub enum SyncActionKind {
    DeleteRemoteFile,
    DeleteRemoteDirectory,
    CreateRemoteDirectory,
    UploadFile,
}

#[derive(Debug, Clone, PartialEq, Eq)]
pub struct SyncAction {
    pub kind: SyncActionKind,
    /// Path below the root.
    pub path: String,
    pub bytes: u64,
}

#[verifier::ext_equal]
pub struct ActionView {
    pub kind: SyncActionKind,
    pub path: Seq<char>,
    pub bytes: u64,
}

impl View for SyncAction {
    type V = ActionView;

    open spec fn view(&self) -> ActionView {
        ActionView { kind: self.kind, path: self.path@, bytes: self.bytes }
    }
}

pub open spec fn action_views(actions: Seq<SyncAction>) -> Seq<ActionView> {
    actions.map_values(|a: SyncAction| a@)
}

#[derive(Debug, Clone, PartialEq, Eq)]
pub struct SyncPlan {
    pub actions: Vec<SyncAction>,
    pub bytes_to_upload: u64,
    pub files_to_upload: u64,
    pub entries_to_delete: u64,
    pub directories_to_create: u64,
}

impl Default for SyncPlan {
    fn default() -> (r: Self)
        ensures
            r.actions@.len() == 0,
            r.bytes_to_upload == 0,
            r.files_to_upload == 0,
            r.entries_to_delete == 0,
            r.directories_to_create == 0,
    {
        SyncPlan {
            actions: Vec::new(),
            bytes_to_upload: 0,
            files_to_upload: 0,
            entries_to_delete: 0,
            directories_to_create: 0,
        }
    }
}

impl SyncPlan {
    pub fn is_empty(&self) -> (r: bool)
        ensures
            r == (self.actions@.len() == 0),
    {
        self.actions.len() == 0
    }
}

/// How trees are compared and changed.
#[derive(Debug, Clone, Copy, PartialEq, Eq, Structural)]
pub struct SyncRules {
    /// Remote entries that are not there locally are deleted, and entries of
    /// another type replaced.
    pub delete: bool,
    /// Files are compared by size alone; otherwise by size and time.
    pub size_only: bool,
}

impl Default for SyncRules {
    fn default() -> (r: Self)
        ensures
            !r.delete,
            !r.size_only,
    {
        SyncRules { delete: false, size_only: false }
    }
}

/// Rules for a synchronization, and how its files are transferred.
#[derive(Debug, Clone)]
pub struct SyncOptions {
    pub delete: bool,
    pub size_only: bool,
    pub transfer: crate::transfer::TransferOptions,
}

impl Default for SyncOptions {
    fn default() -> (r: Self)
        ensures
            !r.delete,
            !r.size_only,
            r.transfer.atomic,
            !r.transfer.resume,
            r.transfer.file_concurrency == crate::transfer::DEFAULT_FILE_CONCURRENCY,
            r.transfer.sftp_write_concurrency == crate::transfer::DEFAULT_SFTP_WRITE_CONCURRENCY,
            r.transfer.sftp_packet_size == crate::transfer::DEFAULT_SFTP_PACKET_SIZE,
            r.transfer.request_timeout_secs == crate::transfer::DEFAULT_REQUEST_TIMEOUT_SECS,
            r.transfer.problem() is None,
    {
        let transfer = crate::transfer::TransferOptions::default();
        assert(transfer.in_flight() == 16777216) by {
            assert(transfer.file_concurrency == 4);
            assert(transfer.sftp_write_concurrency == 16);
            assert(transfer.sftp_packet_size == 262144);
            assert(4 * 16 == 64);
            assert(64 * 262144 == 16777216);
        }
        SyncOptions { delete: false, size_only: false, transfer }
    }
}

impl SyncOptions {
    pub fn rules(&self) -> (r: SyncRules)
        ensures
            r == (SyncRules { delete: self.delete, size_only: self.size_only }),
    {
        SyncRules { delete: self.delete, size_only: self.size_only }
    }
}

#[derive(Debug, Clone, Copy, PartialEq, Eq, Structural)]
pub enum EntryKind {
    File,
    Directory,
    Other,
}

/// What is known of an entry of a tree.
#[derive(Debug, Clone, Copy, PartialEq, Eq, Structural)]
pub struct SnapshotEntry {
    pub kind: EntryKind,
    pub len: u64,
    pub mtime: Option<u32>,
}

/// The files hold the same, as far as size and time tell.
pub open spec fn same_file(local: SnapshotEntry, remote: SnapshotEntry, size_only: bool) -> bool {
    &&& local.len == remote.len
    &&& size_only || match (local.mtime, remote.mtime) {
        (Some(a), Some(b)) => -1 <= a - b <= 1,
        _ => false,
    }
}

pub fn files_match(local: &SnapshotEntry, remote: &SnapshotEntry, size_only: bool) -> (r: bool)
    ensures
        r == same_file(*local, *remote, size_only),
{
    if local.len != remote.len {
        return false;
    }
    if size_only {
        return true;
    }
    match (local.mtime, remote.mtime) {
        (Some(a), Some(b)) => if a >= b {
            a - b <= 1
        } else {
            b - a <= 1
        },
        _ => false,
    }
}

#[derive(Debug, Clone, Copy, PartialEq, Eq, Structural)]
pub enum SyncProblem {
    TypeConflict,
    CountOverflow,
    ByteOverflow,
    UnsafePath(RemotePathProblem),
    RootIsLink,
    RootNotDirectory,
    NameNotText,
    /// What stands at the path has to be looked up first.
    NeedNode,
    DuplicateMutation,
    ContradictoryDeletes,
    DeleteAfterCreate,
    StaleDelete,
    UploadOverDirectory,
    ParentDeleted,
    ParentNotDirectory,
    WrongDelete,
    AtomicOverwrite,
    RootNul,
    RootTraversal,
    SourceMissing,
    SourceIsLink,
    SourceParent,
    SourceNotFile,
    SourceChanged,
}

impl SyncProblem {
    pub open spec fn text(self) -> Seq<char> {
        match self {
            SyncProblem::TypeConflict =>
                "sync type conflict; rerun with --delete to permit replacement"@,
            SyncProblem::CountOverflow => "sync action count overflow"@,
            SyncProblem::ByteOverflow => "sync upload byte counter overflow"@,
            SyncProblem::UnsafePath(_) => "sync path is unsafe"@,
            SyncProblem::RootIsLink => "refusing to follow a symbolic-link sync root"@,
            SyncProblem::RootNotDirectory => "sync root must be a directory"@,
            SyncProblem::NameNotText => "local sync paths must be valid UTF-8"@,
            SyncProblem::NeedNode => "sync path has not been inspected"@,
            SyncProblem::DuplicateMutation => "sync plan contains a duplicate mutation"@,
            SyncProblem::ContradictoryDeletes =>
                "sync plan contains contradictory file/directory delete mutations"@,
            SyncProblem::DeleteAfterCreate =>
                "sync plan must delete before recreating as a directory"@,
            SyncProblem::StaleDelete =>
                "atomic sync plan is stale: it deletes what is absent"@,
            SyncProblem::UploadOverDirectory =>
                "sync plan cannot create a directory and upload a regular file at the same path"@,
            SyncProblem::ParentDeleted =>
                "atomic sync plan would delete a parent directory before uploading beneath it"@,
            SyncProblem::ParentNotDirectory =>
                "refusing atomic sync preflight through a non-directory parent"@,
            SyncProblem::WrongDelete =>
                "atomic sync plan expects to delete an entry of another type"@,
            SyncProblem::AtomicOverwrite =>
                "atomic sync upload would replace an existing destination; rerun with --no-atomic"@,
            SyncProblem::RootNul => "remote sync root cannot contain NUL bytes"@,
            SyncProblem::RootTraversal => "remote sync root traversal with '..' is not supported"@,
            SyncProblem::SourceMissing => "failed to stat sync upload source"@,
            SyncProblem::SourceIsLink =>
                "refusing to follow symbolic-link/reparse component in sync upload source"@,
            SyncProblem::SourceParent =>
                "sync upload source parent is no longer a directory"@,
            SyncProblem::SourceNotFile => "sync upload source is no longer a regular file"@,
            SyncProblem::SourceChanged => "sync plan is stale: upload source size changed"@,
        }
    }

    fn words(self) -> (r: &'static str)
        ensures
            r@ == self.text(),
    {
        match self {
            SyncProblem::TypeConflict =>
                "sync type conflict; rerun with --delete to permit replacement",
            SyncProblem::CountOverflow => "sync action count overflow",
            SyncProblem::ByteOverflow => "sync upload byte counter overflow",
            SyncProblem::UnsafePath(_) => "sync path is unsafe",
            SyncProblem::RootIsLink => "refusing to follow a symbolic-link sync root",
            SyncProblem::RootNotDirectory => "sync root must be a directory",
            SyncProblem::NameNotText => "local sync paths must be valid UTF-8",
            SyncProblem::NeedNode => "sync path has not been inspected",
            SyncProblem::DuplicateMutation => "sync plan contains a duplicate mutation",
            SyncProblem::ContradictoryDeletes =>
                "sync plan contains contradictory file/directory delete mutations",
            SyncProblem::DeleteAfterCreate =>
                "sync plan must delete before recreating as a directory",
            SyncProblem::StaleDelete =>
                "atomic sync plan is stale: it deletes what is absent",
            SyncProblem::UploadOverDirectory =>
                "sync plan cannot create a directory and upload a regular file at the same path",
            SyncProblem::ParentDeleted =>
                "atomic sync plan would delete a parent directory before uploading beneath it",
            SyncProblem::ParentNotDirectory =>
                "refusing atomic sync preflight through a non-directory parent",
            SyncProblem::WrongDelete =>
                "atomic sync plan expects to delete an entry of another type",
            SyncProblem::AtomicOverwrite =>
                "atomic sync upload would replace an existing destination; rerun with --no-atomic",
            SyncProblem::RootNul => "remote sync root cannot contain NUL bytes",
            SyncProblem::RootTraversal => "remote sync root traversal with '..' is not supported",
            SyncProblem::SourceMissing => "failed to stat sync upload source",
            SyncProblem::SourceIsLink =>
                "refusing to follow symbolic-link/reparse component in sync upload source",
            SyncProblem::SourceParent => "sync upload source parent is no longer a directory",
            SyncProblem::SourceNotFile => "sync upload source is no longer a regular file",
            SyncProblem::SourceChanged => "sync plan is stale: upload source size changed",
        }
    }
}

/// The first problem found, with the path that it was found at.
#[derive(Debug, PartialEq, Eq)]
pub struct SyncError {
    pub problem: SyncProblem,
    pub subject: String,
}

#[verifier::ext_equal]
pub struct SyncFault {
    pub problem: SyncProblem,
    pub subject: Seq<char>,
}

impl View for SyncError {
    type V = SyncFault;

    open spec fn view(&self) -> SyncFault {
        SyncFault { problem: self.problem, subject: self.subject@ }
    }
}

impl SyncError {
    pub fn message(&self) -> (r: String)
        ensures
            r@ == self@.problem.text() + ": "@ + self@.subject,
    {
        joined3(self.problem.words(), ": ", self.subject.as_str())
    }
}

pub open spec fn sync_fault(problem: SyncProblem, subject: Seq<char>) -> SyncFault {
    SyncFault { problem, subject }
}

pub(crate) fn sync_error(problem: SyncProblem, subject: &str) -> (r: SyncError)
    ensures
        r@ == sync_fault(problem, subject@),
{
    SyncError { problem, subject: subject.to_owned() }
}

/// How many parts a path has.
pub open spec fn depth_from(parts: Seq<Seq<char>>, i: int) -> nat
    decreases parts.len() - i,
{
    if i < 0 || i >= parts.len() {
        0
    } else {
        depth_from(parts, i + 1) + if parts[i].len() > 0 {
            1nat
        } else {
            0nat
        }
    }
}

pub open spec fn depth(path: Seq<char>) -> nat {
    depth_from(crate::text::split(path, '/'), 0)
}

pub fn path_depth(path: &str) -> (r: usize)
    ensures
        r == depth(path@),
{
    let parts = split_on(path, '/');
    let ghost all = crate::text::views(parts@);
    let mut n: usize = 0;
    let mut i: usize = 0;
    while i < parts.len()
        invariant
            all == crate::text::views(parts@),
            i <= parts@.len(),
            n <= i,
            depth_from(all, 0) == n + depth_from(all, i as int),
        decreases parts@.len() - i,
    {
        assert(all[i as int] == parts@[i as int]@);
        if !parts[i].as_str().is_empty() {
            n += 1;
        }
        i += 1;
    }
    n
}

/// `a` is nearer to the root than `b`, or as near and before it.
pub open spec fn shallower(a: Seq<char>, b: Seq<char>) -> bool {
    depth(a) < depth(b) || depth(a) == depth(b) && crate::text::text_less(a, b)
}

/// What is nearer to the root comes first.
pub open spec fn shallow_first(actions: Seq<ActionView>) -> bool {
    forall|i: int, j: int|
        0 <= i < j < actions.len() ==> !shallower(
            #[trigger] actions[j].path,
            #[trigger] actions[i].path,
        )
}

/// What is further from the root comes first.
pub open spec fn deep_first(actions: Seq<ActionView>) -> bool {
    forall|i: int, j: int|
        0 <= i < j < actions.len() ==> !shallower(
            #[trigger] actions[i].path,
            #[trigger] actions[j].path,
        )
}

pub open spec fn uploading(path: Seq<char>, bytes: u64) -> ActionView {
    ActionView { kind: SyncActionKind::UploadFile, path, bytes }
}

pub open spec fn creating(path: Seq<char>) -> ActionView {
    ActionView { kind: SyncActionKind::CreateRemoteDirectory, path, bytes: 0 }
}

pub open spec fn deleting_file(path: Seq<char>) -> ActionView {
    ActionView { kind: SyncActionKind::DeleteRemoteFile, path, bytes: 0 }
}

pub open spec fn deleting_directory(path: Seq<char>) -> ActionView {
    ActionView { kind: SyncActionKind::DeleteRemoteDirectory, path, bytes: 0 }
}

/// The local file has to be sent.
pub open spec fn needs_upload(
    path: Seq<char>,
    local: SnapshotEntry,
    remote: Seq<(Seq<char>, SnapshotEntry)>,
    rules: SyncRules,
) -> bool {
    local.kind is File && match crate::text_map::lookup(remote, path) {
        None => true,
        Some(r) => !(r.kind is File) || !same_file(local, r, rules.size_only),
    }
}

/// The local directory has to be created.
pub open spec fn needs_directory(
    path: Seq<char>,
    local: SnapshotEntry,
    remote: Seq<(Seq<char>, SnapshotEntry)>,
) -> bool {
    local.kind is Directory && match crate::text_map::lookup(remote, path) {
        None => true,
        Some(r) => !(r.kind is Directory),
    }
}

/// The remote entry has to go: it is not there locally, or is of another type.
pub open spec fn needs_deletion(
    path: Seq<char>,
    remote: SnapshotEntry,
    local: Seq<(Seq<char>, SnapshotEntry)>,
    rules: SyncRules,
) -> bool {
    rules.delete && match crate::text_map::lookup(local, path) {
        None => true,
        Some(l) => l.kind != remote.kind,
    }
}

/// The files to send, in the order of their paths, from entry `i` on.
pub open spec fn uploads_from(
    local: Seq<(Seq<char>, SnapshotEntry)>,
    remote: Seq<(Seq<char>, SnapshotEntry)>,
    rules: SyncRules,
    i: int,
) -> Seq<ActionView>
    decreases local.len() - i,
{
    if i < 0 || i >= local.len() {
        Seq::empty()
    } else if needs_upload(local[i].0, local[i].1, remote, rules) {
        seq![uploading(local[i].0, local[i].1.len)] + uploads_from(local, remote, rules, i + 1)
    } else {
        uploads_from(local, remote, rules, i + 1)
    }
}

/// The directories to create, from entry `i` on.
pub open spec fn creates_from(
    local: Seq<(Seq<char>, SnapshotEntry)>,
    remote: Seq<(Seq<char>, SnapshotEntry)>,
    i: int,
) -> Seq<ActionView>
    decreases local.len() - i,
{
    if i < 0 || i >= local.len() {
        Seq::empty()
    } else if needs_directory(local[i].0, local[i].1, remote) {
        seq![creating(local[i].0)] + creates_from(local, remote, i + 1)
    } else {
        creates_from(local, remote, i + 1)
    }
}

/// The remote entries to delete that are no directories, in the order of their
/// paths, from entry `i` on.
pub open spec fn file_deletes_from(
    local: Seq<(Seq<char>, SnapshotEntry)>,
    remote: Seq<(Seq<char>, SnapshotEntry)>,
    rules: SyncRules,
    i: int,
) -> Seq<ActionView>
    decreases remote.len() - i,
{
    if i < 0 || i >= remote.len() {
        Seq::empty()
    } else if needs_deletion(remote[i].0, remote[i].1, local, rules) && !(
    remote[i].1.kind is Directory) {
        seq![deleting_file(remote[i].0)] + file_deletes_from(local, remote, rules, i + 1)
    } else {
        file_deletes_from(local, remote, rules, i + 1)
    }
}

/// The remote directories to delete, from entry `i` on.
pub open spec fn directory_deletes_from(
    local: Seq<(Seq<char>, SnapshotEntry)>,
    remote: Seq<(Seq<char>, SnapshotEntry)>,
    rules: SyncRules,
    i: int,
) -> Seq<ActionView>
    decreases remote.len() - i,
{
    if i < 0 || i >= remote.len() {
        Seq::empty()
    } else if needs_deletion(remote[i].0, remote[i].1, local, rules)
        && remote[i].1.kind is Directory {
        seq![deleting_directory(remote[i].0)] + directory_deletes_from(local, remote, rules, i + 1)
    } else {
        directory_deletes_from(local, remote, rules, i + 1)
    }
}

/// The first path from entry `i` on at which the trees hold entries of
/// different types.
pub open spec fn conflict_from(
    local: Seq<(Seq<char>, SnapshotEntry)>,
    remote: Seq<(Seq<char>, SnapshotEntry)>,
    i: int,
) -> Option<Seq<char>>
    decreases local.len() - i,
{
    if i < 0 || i >= local.len() {
        None
    } else {
        match crate::text_map::lookup(remote, local[i].0) {
            Some(r) if r.kind != local[i].1.kind => Some(local[i].0),
            _ => conflict_from(local, remote, i + 1),
        }
    }
}

/// The bytes of the actions before index `i`.
pub open spec fn bytes_before(actions: Seq<ActionView>, i: int) -> nat
    decreases i,
{
    if i <= 0 {
        0
    } else {
        bytes_before(actions, i - 1) + actions[i - 1].bytes as nat
    }
}

/// The actions are those that make the remote tree match the local one: first
/// files go, then directories, the deepest first; then directories come, the
/// shallowest first; then files are sent.
pub open spec fn is_push_plan(
    actions: Seq<ActionView>,
    local: Seq<(Seq<char>, SnapshotEntry)>,
    remote: Seq<(Seq<char>, SnapshotEntry)>,
    rules: SyncRules,
) -> bool {
    let files = file_deletes_from(local, remote, rules, 0);
    let directories = directory_deletes_from(local, remote, rules, 0);
    let creates = creates_from(local, remote, 0);
    let uploads = uploads_from(local, remote, rules, 0);
    let a = files.len() as int;
    let b = a + directories.len();
    let c = b + creates.len();
    &&& actions.len() == c + uploads.len()
    &&& actions.subrange(0, a) == files
    &&& deep_first(actions.subrange(a, b))
    &&& actions.subrange(a, b).to_multiset() == directories.to_multiset()
    &&& shallow_first(actions.subrange(b, c))
    &&& actions.subrange(b, c).to_multiset() == creates.to_multiset()
    &&& actions.subrange(c, actions.len() as int) == uploads
}

pub open spec fn plan_counts(
    plan: SyncPlan,
    local: Seq<(Seq<char>, SnapshotEntry)>,
    remote: Seq<(Seq<char>, SnapshotEntry)>,
    rules: SyncRules,
) -> bool {
    let uploads = uploads_from(local, remote, rules, 0);
    &&& plan.bytes_to_upload == bytes_before(uploads, uploads.len() as int)
    &&& plan.files_to_upload == uploads.len()
    &&& plan.entries_to_delete == file_deletes_from(local, remote, rules, 0).len()
        + directory_deletes_from(local, remote, rules, 0).len()
    &&& plan.directories_to_create == creates_from(local, remote, 0).len()
}

proof fn lemma_shallower(a: Seq<char>, b: Seq<char>, c: Seq<char>)
    ensures
        !shallower(a, a),
        a == b || shallower(a, b) || shallower(b, a),
        shallower(a, b) && shallower(b, c) ==> shallower(a, c),
        shallower(a, b) ==> !shallower(b, a),
{
    crate::text::lemma_text_less_irreflexive(a);
    crate::text::lemma_text_less_total(a, b);
    if crate::text::text_less(a, b) && crate::text::text_less(b, c) {
        crate::text::lemma_text_less_transitive(a, b, c);
    }
    if crate::text::text_less(a, b) && crate::text::text_less(b, a) {
        crate::text::lemma_text_less_transitive(a, b, a);
    }
}

fn is_shallower(a: &str, b: &str) -> (r: bool)
    ensures
        r == shallower(a@, b@),
{
    let x = path_depth(a);
    let y = path_depth(b);
    x < y || x == y && less_text(a, b)
}

fn insert_shallow(actions: &mut Vec<SyncAction>, action: SyncAction)
    requires
        shallow_first(action_views(old(actions)@)),
    ensures
        shallow_first(action_views(final(actions)@)),
        final(actions)@.len() == old(actions)@.len() + 1,
        action_views(final(actions)@).to_multiset() == action_views(
            old(actions)@,
        ).to_multiset().insert(action@),
{
    let ghost before = action_views(actions@);
    let mut p: usize = actions.len();
    while p > 0 && is_shallower(action.path.as_str(), actions[p - 1].path.as_str())
        invariant
            before == action_views(actions@),
            actions@ == old(actions)@,
            shallow_first(before),
            p <= actions@.len(),
            forall|k: int|
                p <= k < before.len() ==> shallower(action@.path, #[trigger] before[k].path),
        decreases p,
    {
        assert(before[p - 1].path == actions@[p - 1].path@);
        p -= 1;
    }
    let ghost view = action@;
    if p > 0 {
        assert(before[p - 1].path == actions@[p - 1].path@);
    }
    actions.insert(p, action);
    proof {
        let after = action_views(actions@);
        assert(after =~= before.insert(p as int, view));
        vstd::seq_lib::to_multiset_insert(before, p as int, view);
        assert forall|i: int, j: int| 0 <= i < j < after.len() implies !shallower(
            #[trigger] after[j].path,
            #[trigger] after[i].path,
        ) by {
            if j == p {
                assert(after[i] == before[i]);
                let last = before[p - 1].path;
                lemma_shallower(before[i].path, last, last);
                lemma_shallower(view.path, before[i].path, last);
                if i < p - 1 {
                    assert(!shallower(before[p - 1].path, before[i].path));
                }
            } else if i == p {
                assert(after[j] == before[j - 1]);
                lemma_shallower(view.path, before[j - 1].path, view.path);
            } else {
                let oi = if i < p { i } else { i - 1 };
                let oj = if j < p { j } else { j - 1 };
                assert(after[i] == before[oi]);
                assert(after[j] == before[oj]);
            }
        }
    }
}

fn reversed(actions: Vec<SyncAction>) -> (r: Vec<SyncAction>)
    requires
        shallow_first(action_views(actions@)),
    ensures
        deep_first(action_views(r@)),
        r@.len() == actions@.len(),
        action_views(r@).to_multiset() == action_views(actions@).to_multiset(),
{
    let ghost all = action_views(actions@);
    let mut rest = actions;
    let mut out: Vec<SyncAction> = Vec::new();
    proof {
        vstd::seq_lib::to_multiset_len(all);
        assert(action_views(out@) =~= Seq::<ActionView>::empty());
        assert(all.take(all.len() as int) =~= all);
        assert(action_views(out@).to_multiset().add(all.to_multiset()) =~= all.to_multiset()) by {
            broadcast use vstd::seq_lib::group_to_multiset_ensures;
        }
    }
    while rest.len() > 0
        invariant
            shallow_first(all),
            rest@.len() <= all.len(),
            rest@.len() + out@.len() == all.len(),
            action_views(rest@) == all.take(rest@.len() as int),
            forall|k: int|
                0 <= k < out@.len() ==> (#[trigger] action_views(out@)[k]) == all[all.len() - 1
                    - k],
            action_views(out@).to_multiset().add(action_views(rest@).to_multiset())
                == all.to_multiset(),
        decreases rest@.len(),
    {
        let ghost n = rest@.len();
        let ghost before_rest = action_views(rest@);
        let ghost before_out = action_views(out@);
        assert(before_rest[n - 1] == rest@[n - 1]@);
        let top = rest.pop();
        match top {
            Some(action) => {
                let ghost view = action@;
                out.push(action);
                proof {
                    let now_rest = action_views(rest@);
                    let now_out = action_views(out@);
                    assert(now_rest =~= before_rest.drop_last());
                    assert(before_rest =~= now_rest.push(view));
                    assert(now_out =~= before_out.push(view));
                    vstd::seq_lib::to_multiset_build(now_rest, view);
                    vstd::seq_lib::to_multiset_build(before_out, view);
                    assert(now_out.to_multiset().add(now_rest.to_multiset())
                        =~= before_out.to_multiset().add(before_rest.to_multiset()));
                    assert(now_rest =~= all.take(n - 1));
                    assert forall|k: int| 0 <= k < out@.len() implies (#[trigger] now_out[k])
                        == all[all.len() - 1 - k] by {
                        if k < out@.len() - 1 {
                            assert(now_out[k] == before_out[k]);
                        }
                    }
                }
            },
            None => {
                assert(false);
            },
        }
    }
    proof {
        let done = action_views(out@);
        assert(action_views(rest@) =~= Seq::<ActionView>::empty());
        assert(done.to_multiset().add(Seq::<ActionView>::empty().to_multiset())
            =~= done.to_multiset()) by {
            broadcast use vstd::seq_lib::group_to_multiset_ensures;
        }
        assert forall|i: int, j: int| 0 <= i < j < done.len() implies !shallower(
            #[trigger] done[i].path,
            #[trigger] done[j].path,
        ) by {
            assert(done[i] == all[all.len() - 1 - i]);
            assert(done[j] == all[all.len() - 1 - j]);
        }
    }
    out
}

fn sync_action(kind: SyncActionKind, path: &str, bytes: u64) -> (r: SyncAction)
    ensures
        r@ == (ActionView { kind, path: path@, bytes }),
{
    SyncAction { kind, path: path.to_owned(), bytes }
}

proof fn lemma_action_push(actions: Seq<SyncAction>, action: SyncAction)
    ensures
        action_views(actions.push(action)) == action_views(actions).push(action@),
{
    assert(action_views(actions.push(action)) =~= action_views(actions).push(action@));
}

fn find_conflict(local: &TextMap<SnapshotEntry>, remote: &TextMap<SnapshotEntry>) -> (r: Option<
    String,
>)
    ensures
        match r {
            Some(path) => conflict_from(local.entries(), remote.entries(), 0) == Some(path@),
            None => conflict_from(local.entries(), remote.entries(), 0) is None,
        },
{
    let ghost a = local.entries();
    let ghost b = remote.entries();
    let mut i: usize = 0;
    while i < local.len()
        invariant
            a == local.entries(),
            b == remote.entries(),
            i <= a.len(),
            conflict_from(a, b, 0) == conflict_from(a, b, i as int),
        decreases a.len() - i,
    {
        let path = local.key_at(i);
        let entry = local.value_at(i);
        match remote.get(path.as_str()) {
            Some(other) => {
                if other.kind != entry.kind {
                    return Some(path.clone());
                }
            },
            None => {},
        }
        i += 1;
    }
    None
}

fn collect_uploads(
    local: &TextMap<SnapshotEntry>,
    remote: &TextMap<SnapshotEntry>,
    rules: SyncRules,
) -> (r: Vec<SyncAction>)
    ensures
        action_views(r@) == uploads_from(local.entries(), remote.entries(), rules, 0),
{
    let ghost a = local.entries();
    let ghost b = remote.entries();
    let mut out: Vec<SyncAction> = Vec::new();
    assert(action_views(out@) + uploads_from(a, b, rules, 0) =~= uploads_from(a, b, rules, 0));
    let mut i: usize = 0;
    while i < local.len()
        invariant
            a == local.entries(),
            b == remote.entries(),
            i <= a.len(),
            uploads_from(a, b, rules, 0) == action_views(out@) + uploads_from(a, b, rules, i as int),
        decreases a.len() - i,
    {
        let path = local.key_at(i);
        let entry = local.value_at(i);
        let send = entry.kind == EntryKind::File && match remote.get(path.as_str()) {
            Some(other) => other.kind != EntryKind::File || !files_match(
                entry,
                other,
                rules.size_only,
            ),
            None => true,
        };
        if send {
            let ghost before = out@;
            let action = sync_action(SyncActionKind::UploadFile, path.as_str(), entry.len);
            proof {
                lemma_action_push(before, action);
                assert(action_views(before).push(action@) + uploads_from(a, b, rules, i + 1)
                    =~= action_views(before) + uploads_from(a, b, rules, i as int));
            }
            out.push(action);
        }
        i += 1;
    }
    assert(action_views(out@) + uploads_from(a, b, rules, i as int) =~= action_views(out@));
    out
}

/// An action more at the front is an action more.
proof fn lemma_front(first: ActionView, rest: Seq<ActionView>)
    ensures
        (seq![first] + rest).to_multiset() == rest.to_multiset().insert(first),
{
    assert(seq![first] + rest =~= rest.insert(0, first));
    vstd::seq_lib::to_multiset_insert(rest, 0, first);
}

proof fn lemma_empty_multiset(actions: Seq<ActionView>)
    ensures
        Seq::<ActionView>::empty().to_multiset().add(actions.to_multiset())
            == actions.to_multiset(),
        actions.to_multiset().add(Seq::<ActionView>::empty().to_multiset())
            == actions.to_multiset(),
{
    broadcast use vstd::seq_lib::group_to_multiset_ensures;

    assert(Seq::<ActionView>::empty().to_multiset().add(actions.to_multiset())
        =~= actions.to_multiset());
    assert(actions.to_multiset().add(Seq::<ActionView>::empty().to_multiset())
        =~= actions.to_multiset());
}

fn collect_creates(local: &TextMap<SnapshotEntry>, remote: &TextMap<SnapshotEntry>) -> (r: Vec<
    SyncAction,
>)
    ensures
        shallow_first(action_views(r@)),
        r@.len() == creates_from(local.entries(), remote.entries(), 0).len(),
        action_views(r@).to_multiset() == creates_from(
            local.entries(),
            remote.entries(),
            0,
        ).to_multiset(),
{
    let ghost a = local.entries();
    let ghost b = remote.entries();
    let mut out: Vec<SyncAction> = Vec::new();
    proof {
        assert(action_views(out@) =~= Seq::<ActionView>::empty());
        lemma_empty_multiset(creates_from(a, b, 0));
    }
    let mut i: usize = 0;
    while i < local.len()
        invariant
            a == local.entries(),
            b == remote.entries(),
            i <= a.len(),
            shallow_first(action_views(out@)),
            creates_from(a, b, 0).len() == out@.len() + creates_from(a, b, i as int).len(),
            creates_from(a, b, 0).to_multiset() == action_views(out@).to_multiset().add(
                creates_from(a, b, i as int).to_multiset(),
            ),
        decreases a.len() - i,
    {
        let path = local.key_at(i);
        let entry = local.value_at(i);
        let create = entry.kind == EntryKind::Directory && match remote.get(path.as_str()) {
            Some(other) => other.kind != EntryKind::Directory,
            None => true,
        };
        if create {
            let ghost before = action_views(out@).to_multiset();
            let action = sync_action(SyncActionKind::CreateRemoteDirectory, path.as_str(), 0);
            let ghost view = action@;
            insert_shallow(&mut out, action);
            proof {
                let rest = creates_from(a, b, i + 1);
                assert(creates_from(a, b, i as int) == seq![view] + rest);
                lemma_front(view, rest);
                assert(before.insert(view).add(rest.to_multiset()) =~= before.add(
                    rest.to_multiset().insert(view),
                ));
            }
        }
        i += 1;
    }
    proof {
        assert(creates_from(a, b, i as int) =~= Seq::<ActionView>::empty());
        lemma_empty_multiset(action_views(out@));
    }
    out
}

fn to_delete(
    path: &str,
    entry: &SnapshotEntry,
    local: &TextMap<SnapshotEntry>,
    rules: SyncRules,
) -> (r: bool)
    ensures
        r == needs_deletion(path@, *entry, local.entries(), rules),
{
    rules.delete && match local.get(path) {
        None => true,
        Some(other) => other.kind != entry.kind,
    }
}

fn collect_file_deletes(
    local: &TextMap<SnapshotEntry>,
    remote: &TextMap<SnapshotEntry>,
    rules: SyncRules,
) -> (r: Vec<SyncAction>)
    ensures
        action_views(r@) == file_deletes_from(local.entries(), remote.entries(), rules, 0),
{
    let ghost a = local.entries();
    let ghost b = remote.entries();
    let mut out: Vec<SyncAction> = Vec::new();
    assert(action_views(out@) + file_deletes_from(a, b, rules, 0) =~= file_deletes_from(
        a,
        b,
        rules,
        0,
    ));
    let mut i: usize = 0;
    while i < remote.len()
        invariant
            a == local.entries(),
            b == remote.entries(),
            i <= b.len(),
            file_deletes_from(a, b, rules, 0) == action_views(out@) + file_deletes_from(
                a,
                b,
                rules,
                i as int,
            ),
        decreases b.len() - i,
    {
        let path = remote.key_at(i);
        let entry = remote.value_at(i);
        if to_delete(path.as_str(), entry, local, rules) && entry.kind != EntryKind::Directory {
            let ghost before = out@;
            let action = sync_action(SyncActionKind::DeleteRemoteFile, path.as_str(), 0);
            proof {
                lemma_action_push(before, action);
                assert(action_views(before).push(action@) + file_deletes_from(a, b, rules, i + 1)
                    =~= action_views(before) + file_deletes_from(a, b, rules, i as int));
            }
            out.push(action);
        }
        i += 1;
    }
    assert(action_views(out@) + file_deletes_from(a, b, rules, i as int) =~= action_views(out@));
    out
}

fn collect_directory_deletes(
    local: &TextMap<SnapshotEntry>,
    remote: &TextMap<SnapshotEntry>,
    rules: SyncRules,
) -> (r: Vec<SyncAction>)
    ensures
        deep_first(action_views(r@)),
        r@.len() == directory_deletes_from(local.entries(), remote.entries(), rules, 0).len(),
        action_views(r@).to_multiset() == directory_deletes_from(
            local.entries(),
            remote.entries(),
            rules,
            0,
        ).to_multiset(),
{
    let ghost a = local.entries();
    let ghost b = remote.entries();
    let mut out: Vec<SyncAction> = Vec::new();
    proof {
        assert(action_views(out@) =~= Seq::<ActionView>::empty());
        lemma_empty_multiset(directory_deletes_from(a, b, rules, 0));
    }
    let mut i: usize = 0;
    while i < remote.len()
        invariant
            a == local.entries(),
            b == remote.entries(),
            i <= b.len(),
            shallow_first(action_views(out@)),
            directory_deletes_from(a, b, rules, 0).len() == out@.len() + directory_deletes_from(
                a,
                b,
                rules,
                i as int,
            ).len(),
            directory_deletes_from(a, b, rules, 0).to_multiset() == action_views(
                out@,
            ).to_multiset().add(directory_deletes_from(a, b, rules, i as int).to_multiset()),
        decreases b.len() - i,
    {
        let path = remote.key_at(i);
        let entry = remote.value_at(i);
        if to_delete(path.as_str(), entry, local, rules) && entry.kind == EntryKind::Directory {
            let ghost before = action_views(out@).to_multiset();
            let action = sync_action(SyncActionKind::DeleteRemoteDirectory, path.as_str(), 0);
            let ghost view = action@;
            insert_shallow(&mut out, action);
            proof {
                let rest = directory_deletes_from(a, b, rules, i + 1);
                assert(directory_deletes_from(a, b, rules, i as int) == seq![view] + rest);
                lemma_front(view, rest);
                assert(before.insert(view).add(rest.to_multiset()) =~= before.add(
                    rest.to_multiset().insert(view),
                ));
            }
        }
        i += 1;
    }
    proof {
        assert(directory_deletes_from(a, b, rules, i as int) =~= Seq::<ActionView>::empty());
        lemma_empty_multiset(action_views(out@));
    }
    reversed(out)
}

proof fn lemma_bytes_grow(actions: Seq<ActionView>, i: int, j: int)
    requires
        0 <= i <= j,
    ensures
        bytes_before(actions, i) <= bytes_before(actions, j),
    decreases j - i,
{
    if i < j {
        lemma_bytes_grow(actions, i, j - 1);
    }
}

/// The bytes of all the actions, where they can be counted.
fn total_bytes(actions: &Vec<SyncAction>) -> (r: Option<u64>)
    ensures
        ({
            let all = action_views(actions@);
            let total = bytes_before(all, all.len() as int);
            match r {
                Some(n) => n == total,
                None => total > u64::MAX,
            }
        }),
{
    let ghost all = action_views(actions@);
    let mut total: u64 = 0;
    let mut i: usize = 0;
    while i < actions.len()
        invariant
            all == action_views(actions@),
            i <= actions@.len(),
            total == bytes_before(all, i as int),
        decreases actions@.len() - i,
    {
        assert(all[i as int] == actions@[i as int]@);
        match total.checked_add(actions[i].bytes) {
            Some(n) => {
                total = n;
            },
            None => {
                proof {
                    lemma_bytes_grow(all, i + 1, all.len() as int);
                }
                return None;
            },
        }
        i += 1;
    }
    Some(total)
}

fn append_actions(first: Vec<SyncAction>, second: Vec<SyncAction>) -> (r: Vec<SyncAction>)
    ensures
        action_views(r@) == action_views(first@) + action_views(second@),
{
    let mut out = first;
    let mut rest = second;
    out.append(&mut rest);
    assert(action_views(out@) =~= action_views(first@) + action_views(second@));
    out
}

/// How many actions a plan has.
pub open spec fn plan_len(
    local: Seq<(Seq<char>, SnapshotEntry)>,
    remote: Seq<(Seq<char>, SnapshotEntry)>,
    rules: SyncRules,
) -> nat {
    file_deletes_from(local, remote, rules, 0).len() + directory_deletes_from(
        local,
        remote,
        rules,
        0,
    ).len() + creates_from(local, remote, 0).len() + uploads_from(local, remote, rules, 0).len()
}

/// The actions that make the remote tree match the local one. A path at which
/// the trees hold entries of different types is refused, unless deleting is
/// allowed.
pub fn build_push_plan(
    local: &TextMap<SnapshotEntry>,
    remote: &TextMap<SnapshotEntry>,
    rules: SyncRules,
) -> (r: Result<SyncPlan, SyncError>)
    ensures
        ({
            let a = local.entries();
            let b = remote.entries();
            let uploads = uploads_from(a, b, rules, 0);
            let conflict = if rules.delete {
                None
            } else {
                conflict_from(a, b, 0)
            };
            let too_many = plan_len(a, b, rules) > usize::MAX;
            let too_long = bytes_before(uploads, uploads.len() as int) > u64::MAX;
            match r {
                Ok(plan) => conflict is None && is_push_plan(
                    action_views(plan.actions@),
                    a,
                    b,
                    rules,
                ) && plan_counts(plan, a, b, rules) && !too_many && !too_long,
                Err(e) => match conflict {
                    Some(path) => e@ == sync_fault(SyncProblem::TypeConflict, path),
                    None => e@ == sync_fault(SyncProblem::CountOverflow, Seq::empty()) && too_many
                        || e@ == sync_fault(SyncProblem::ByteOverflow, Seq::empty()) && too_long,
                },
            }
        }),
{
    if !rules.delete {
        match find_conflict(local, remote) {
            Some(path) => {
                return Err(sync_error(SyncProblem::TypeConflict, path.as_str()));
            },
            None => {},
        }
    }
    proof {
        reveal_strlit("");
        assert(""@ =~= Seq::<char>::empty());
    }
    let files = collect_file_deletes(local, remote, rules);
    let directories = collect_directory_deletes(local, remote, rules);
    let creates = collect_creates(local, remote);
    let uploads = collect_uploads(local, remote, rules);
    assert(action_views(files@).len() == files@.len());
    assert(action_views(uploads@).len() == uploads@.len());
    let deletes: usize = match files.len().checked_add(directories.len()) {
        Some(n) => n,
        None => {
            return Err(sync_error(SyncProblem::CountOverflow, ""));
        },
    };
    let bytes: u64 = match total_bytes(&uploads) {
        Some(n) => n,
        None => {
            return Err(sync_error(SyncProblem::ByteOverflow, ""));
        },
    };
    let kept: usize = match deletes.checked_add(creates.len()) {
        Some(n) => n,
        None => {
            return Err(sync_error(SyncProblem::CountOverflow, ""));
        },
    };
    if kept.checked_add(uploads.len()).is_none() {
        return Err(sync_error(SyncProblem::CountOverflow, ""));
    }
    let ghost views = (
        action_views(files@),
        action_views(directories@),
        action_views(creates@),
        action_views(uploads@),
    );
    let directories_to_create = creates.len() as u64;
    let files_to_upload = uploads.len() as u64;
    let actions = append_actions(
        append_actions(files, directories),
        append_actions(creates, uploads),
    );
    proof {
        let all = action_views(actions@);
        let a = views.0.len() as int;
        let b = a + views.1.len();
        let c = b + views.2.len();
        assert(all.subrange(0, a) =~= views.0);
        assert(all.subrange(a, b) =~= views.1);
        assert(all.subrange(b, c) =~= views.2);
        assert(all.subrange(c, all.len() as int) =~= views.3);
    }
    Ok(
        SyncPlan {
            actions,
            bytes_to_upload: bytes,
            files_to_upload,
            entries_to_delete: deletes as u64,
            directories_to_create,
        },
    )
}

/// The problem of the first action from index `i` on whose path does not stay
/// below its root, on the remote side or as a local path.
pub open spec fn plan_problem_from(
    actions: Seq<ActionView>,
    platform: LocalPaths,
    i: int,
) -> Option<SyncFault>
    decreases actions.len() - i,
{
    if i < 0 || i >= actions.len() {
        None
    } else {
        match crate::remote_path::local_path_problem(actions[i].path, platform) {
            Some(e) => Some(sync_fault(SyncProblem::UnsafePath(e), actions[i].path)),
            None => plan_problem_from(actions, platform, i + 1),
        }
    }
}

/// Checks that every action of a plan, whoever made it, stays below its root,
/// on the remote side and as a local path.
pub fn validate_sync_plan(plan: &SyncPlan, platform: LocalPaths) -> (r: Result<(), SyncError>)
    ensures
        match r {
            Ok(()) => plan_problem_from(action_views(plan.actions@), platform, 0) is None,
            Err(e) => plan_problem_from(action_views(plan.actions@), platform, 0) == Some(e@),
        },
{
    let ghost all = action_views(plan.actions@);
    let mut i: usize = 0;
    while i < plan.actions.len()
        invariant
            all == action_views(plan.actions@),
            i <= plan.actions@.len(),
            plan_problem_from(all, platform, 0) == plan_problem_from(all, platform, i as int),
        decreases plan.actions@.len() - i,
    {
        assert(all[i as int] == plan.actions@[i as int]@);
        let path = plan.actions[i].path.as_str();
        match local_path_from_remote_relative(path, platform) {
            Ok(_) => {},
            Err(e) => {
                return Err(sync_error(SyncProblem::UnsafePath(e), path));
            },
        }
        i += 1;
    }
    Ok(())
}

} // verus!
