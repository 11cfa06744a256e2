//! What a plan does, told of the two trees entry by entry.

use vstd::prelude::*;

use crate::sync::ActionView;
use crate::sync::EntryKind;
use crate::sync::SnapshotEntry;
use crate::sync::SyncActionKind;
use crate::sync::SyncPlan;
use crate::sync::SyncRules;

verus! {

proof fn lemma_upload_found(
    local: Seq<(Seq<char>, SnapshotEntry)>,
    remote: Seq<(Seq<char>, SnapshotEntry)>,
    rules: SyncRules,
    i: int,
    k: int,
)
    requires
        0 <= i <= k < local.len(),
        crate::sync::needs_upload(local[k].0, local[k].1, remote, rules),
    ensures
        crate::sync::uploads_from(local, remote, rules, i).contains(
            crate::sync::uploading(local[k].0, local[k].1.len),
        ),
    decreases k - i,
{
    let all = crate::sync::uploads_from(local, remote, rules, i);
    if i == k {
        assert(all[0] == crate::sync::uploading(local[k].0, local[k].1.len));
    } else {
        lemma_upload_found(local, remote, rules, i + 1, k);
        let later = crate::sync::uploads_from(local, remote, rules, i + 1);
        let x = crate::sync::uploading(local[k].0, local[k].1.len);
        let j = choose|j: int| 0 <= j < later.len() && later[j] == x;
        if all != later {
            assert(all[j + 1] == x);
        }
    }
}

proof fn lemma_create_found(
    local: Seq<(Seq<char>, SnapshotEntry)>,
    remote: Seq<(Seq<char>, SnapshotEntry)>,
    i: int,
    k: int,
)
    requires
        0 <= i <= k < local.len(),
        crate::sync::needs_directory(local[k].0, local[k].1, remote),
    ensures
        crate::sync::creates_from(local, remote, i).contains(crate::sync::creating(local[k].0)),
    decreases k - i,
{
    let all = crate::sync::creates_from(local, remote, i);
    if i == k {
        assert(all[0] == crate::sync::creating(local[k].0));
    } else {
        lemma_create_found(local, remote, i + 1, k);
        let later = crate::sync::creates_from(local, remote, i + 1);
        let x = crate::sync::creating(local[k].0);
        let j = choose|j: int| 0 <= j < later.len() && later[j] == x;
        if all != later {
            assert(all[j + 1] == x);
        }
    }
}

proof fn lemma_delete_found(
    local: Seq<(Seq<char>, SnapshotEntry)>,
    remote: Seq<(Seq<char>, SnapshotEntry)>,
    rules: SyncRules,
    i: int,
    k: int,
)
    requires
        0 <= i <= k < remote.len(),
        crate::sync::needs_deletion(remote[k].0, remote[k].1, local, rules),
    ensures
        remote[k].1.kind is Directory ==> crate::sync::directory_deletes_from(
            local,
            remote,
            rules,
            i,
        ).contains(crate::sync::deleting_directory(remote[k].0)),
        !(remote[k].1.kind is Directory) ==> crate::sync::file_deletes_from(
            local,
            remote,
            rules,
            i,
        ).contains(crate::sync::deleting_file(remote[k].0)),
    decreases k - i,
{
    let files = crate::sync::file_deletes_from(local, remote, rules, i);
    let directories = crate::sync::directory_deletes_from(local, remote, rules, i);
    let f = crate::sync::deleting_file(remote[k].0);
    let d = crate::sync::deleting_directory(remote[k].0);
    if i == k {
        if remote[k].1.kind is Directory {
            assert(directories[0] == d);
        } else {
            assert(files[0] == f);
        }
    } else {
        lemma_delete_found(local, remote, rules, i + 1, k);
        let later_files = crate::sync::file_deletes_from(local, remote, rules, i + 1);
        let later_directories = crate::sync::directory_deletes_from(local, remote, rules, i + 1);
        if remote[k].1.kind is Directory {
            let j = choose|j: int| 0 <= j < later_directories.len() && later_directories[j] == d;
            if directories != later_directories {
                assert(directories[j + 1] == d);
            }
        } else {
            let j = choose|j: int| 0 <= j < later_files.len() && later_files[j] == f;
            if files != later_files {
                assert(files[j + 1] == f);
            }
        }
    }
}

proof fn lemma_members(a: Seq<ActionView>, b: Seq<ActionView>, x: ActionView)
    requires
        a.to_multiset() == b.to_multiset(),
        b.contains(x),
    ensures
        a.contains(x),
{
    broadcast use vstd::seq_lib::group_to_multiset_ensures;

    assert(b.to_multiset().count(x) > 0);
    assert(a.to_multiset().count(x) > 0);
}

/// A part of a plan lies in the plan.
proof fn lemma_part(actions: Seq<ActionView>, from: int, to: int, x: ActionView)
    requires
        0 <= from <= to <= actions.len(),
        actions.subrange(from, to).contains(x),
    ensures
        actions.contains(x),
        exists|i: int| from <= i < to && #[trigger] actions[i] == x,
{
    let part = actions.subrange(from, to);
    let j = choose|j: int| 0 <= j < part.len() && part[j] == x;
    assert(actions[from + j] == x);
}

/// Which files a plan sends: those that are not there, those in whose place
/// something else stands, and of those that are there the ones whose length
/// differs; where not the size alone counts, also those whose times are unknown
/// or more than a second apart. Each is sent with all its bytes.
pub proof fn files_are_sent_where_they_differ(
    actions: Seq<ActionView>,
    local: Seq<(Seq<char>, SnapshotEntry)>,
    remote: Seq<(Seq<char>, SnapshotEntry)>,
    rules: SyncRules,
    k: int,
)
    requires
        crate::sync::is_push_plan(actions, local, remote, rules),
        crate::text_map::sorted(local),
        crate::text_map::sorted(remote),
        0 <= k < local.len(),
        local[k].1.kind == EntryKind::File,
    ensures
        ({
            let path = local[k].0;
            let file = local[k].1;
            let sent = actions.contains(
                ActionView { kind: SyncActionKind::UploadFile, path, bytes: file.len },
            );
            &&& (forall|j: int| 0 <= j < remote.len() ==> (#[trigger] remote[j]).0 != path) ==> sent
            &&& forall|j: int|
                0 <= j < remote.len() && (#[trigger] remote[j]).0 == path ==> {
                    let there = remote[j].1;
                    &&& there.kind != EntryKind::File ==> sent
                    &&& there.kind == EntryKind::File && there.len != file.len ==> sent
                    &&& there.kind == EntryKind::File && there.len == file.len ==> {
                        &&& rules.size_only ==> !sent
                        &&& !rules.size_only && (file.mtime is None || there.mtime is None) ==> sent
                        &&& !rules.size_only && file.mtime is Some && there.mtime is Some ==> sent
                            == (file.mtime->0 > there.mtime->0 + 1 || there.mtime->0
                            > file.mtime->0 + 1)
                    }
                }
        }),
{
    let path = local[k].0;
    let file = local[k].1;
    let x = ActionView { kind: SyncActionKind::UploadFile, path, bytes: file.len };
    let uploads = crate::sync::uploads_from(local, remote, rules, 0);
    let c = actions.len() - uploads.len();
    crate::text_map::lemma_lookup(remote, path);
    if crate::sync::needs_upload(path, file, remote, rules) {
        lemma_upload_found(local, remote, rules, 0, k);
        assert(actions.subrange(c, actions.len() as int) == uploads);
        lemma_part(actions, c, actions.len() as int, x);
    } else if actions.contains(x) {
        let n = choose|n: int| 0 <= n < actions.len() && actions[n] == x;
        crate::sync_law::planned_actions_are_called_for(actions, local, remote, rules, n);
        let m = choose|m: int|
            0 <= m < local.len() && (#[trigger] local[m]).0 == path && local[m].1.len == x.bytes
                && crate::sync::needs_upload(local[m].0, local[m].1, remote, rules);
        crate::text_map::lemma_lookup(local, path);
        assert(crate::text_map::rank(local, path) == m);
        assert(crate::text_map::rank(local, path) == k);
    }
    assert forall|j: int| 0 <= j < remote.len() && (#[trigger] remote[j]).0 == path implies
        crate::text_map::lookup(remote, path) == Some(remote[j].1) by {}
}

/// Which directories a plan creates: those of the local tree in whose place the
/// remote tree has no directory.
pub proof fn directories_are_created_where_they_are_missing(
    actions: Seq<ActionView>,
    local: Seq<(Seq<char>, SnapshotEntry)>,
    remote: Seq<(Seq<char>, SnapshotEntry)>,
    rules: SyncRules,
    k: int,
)
    requires
        crate::sync::is_push_plan(actions, local, remote, rules),
        crate::text_map::sorted(local),
        crate::text_map::sorted(remote),
        0 <= k < local.len(),
        local[k].1.kind == EntryKind::Directory,
    ensures
        actions.contains(
            ActionView {
                kind: SyncActionKind::CreateRemoteDirectory,
                path: local[k].0,
                bytes: 0,
            },
        ) == (forall|j: int|
            0 <= j < remote.len() && (#[trigger] remote[j]).0 == local[k].0 ==> remote[j].1.kind
                != EntryKind::Directory),
{
    let path = local[k].0;
    let x = ActionView { kind: SyncActionKind::CreateRemoteDirectory, path, bytes: 0 };
    let creates = crate::sync::creates_from(local, remote, 0);
    let c = actions.len() - crate::sync::uploads_from(local, remote, rules, 0).len();
    let b = c - creates.len();
    crate::text_map::lemma_lookup(remote, path);
    if crate::sync::needs_directory(path, local[k].1, remote) {
        lemma_create_found(local, remote, 0, k);
        lemma_members(actions.subrange(b, c), creates, x);
        lemma_part(actions, b, c, x);
        assert forall|j: int| 0 <= j < remote.len() && (#[trigger] remote[j]).0
            == path implies remote[j].1.kind != EntryKind::Directory by {}
    } else {
        let p = crate::text_map::rank(remote, path);
        assert(remote[p].0 == path && remote[p].1.kind == EntryKind::Directory);
        if actions.contains(x) {
            let n = choose|n: int| 0 <= n < actions.len() && actions[n] == x;
            crate::sync_law::planned_actions_are_called_for(actions, local, remote, rules, n);
        }
    }
}

/// Which remote entries a plan deletes: with leave to delete, those whose path
/// the local tree has not, or has with an entry of another kind; without, none.
pub proof fn entries_are_deleted_where_they_are_in_the_way(
    actions: Seq<ActionView>,
    local: Seq<(Seq<char>, SnapshotEntry)>,
    remote: Seq<(Seq<char>, SnapshotEntry)>,
    rules: SyncRules,
    k: int,
)
    requires
        crate::sync::is_push_plan(actions, local, remote, rules),
        crate::text_map::sorted(local),
        crate::text_map::sorted(remote),
        0 <= k < remote.len(),
    ensures
        ({
            let path = remote[k].0;
            let kind = remote[k].1.kind;
            let file = actions.contains(
                ActionView { kind: SyncActionKind::DeleteRemoteFile, path, bytes: 0 },
            );
            let directory = actions.contains(
                ActionView { kind: SyncActionKind::DeleteRemoteDirectory, path, bytes: 0 },
            );
            let gone = rules.delete && forall|j: int|
                0 <= j < local.len() && (#[trigger] local[j]).0 == path ==> local[j].1.kind != kind;
            &&& file == (gone && kind != EntryKind::Directory)
            &&& directory == (gone && kind == EntryKind::Directory)
        }),
{
    let path = remote[k].0;
    let kind = remote[k].1.kind;
    let f = ActionView { kind: SyncActionKind::DeleteRemoteFile, path, bytes: 0 };
    let d = ActionView { kind: SyncActionKind::DeleteRemoteDirectory, path, bytes: 0 };
    let files = crate::sync::file_deletes_from(local, remote, rules, 0);
    let directories = crate::sync::directory_deletes_from(local, remote, rules, 0);
    let a = files.len() as int;
    let b = a + directories.len();
    crate::text_map::lemma_lookup(local, path);
    crate::text_map::lemma_lookup(remote, path);
    let gone = rules.delete && forall|j: int|
        0 <= j < local.len() && (#[trigger] local[j]).0 == path ==> local[j].1.kind != kind;
    if crate::sync::needs_deletion(path, remote[k].1, local, rules) {
        lemma_delete_found(local, remote, rules, 0, k);
        if kind == EntryKind::Directory {
            lemma_members(actions.subrange(a, b), directories, d);
            lemma_part(actions, a, b, d);
        } else {
            assert(actions.subrange(0, a) == files);
            lemma_part(actions, 0, a, f);
        }
        assert(gone);
    } else if rules.delete {
        let p = crate::text_map::rank(local, path);
        assert(local[p].0 == path && local[p].1.kind == kind);
        assert(!gone);
    }
    if actions.contains(f) {
        let n = choose|n: int| 0 <= n < actions.len() && actions[n] == f;
        crate::sync_law::planned_actions_are_called_for(actions, local, remote, rules, n);
        let m = choose|m: int|
            0 <= m < remote.len() && (#[trigger] remote[m]).0 == path && !(
            remote[m].1.kind is Directory) && crate::sync::needs_deletion(
                remote[m].0,
                remote[m].1,
                local,
                rules,
            );
        assert(crate::text_map::rank(remote, path) == m);
    }
    if actions.contains(d) {
        let n = choose|n: int| 0 <= n < actions.len() && actions[n] == d;
        crate::sync_law::planned_actions_are_called_for(actions, local, remote, rules, n);
        let m = choose|m: int|
            0 <= m < remote.len() && (#[trigger] remote[m]).0 == path
                && remote[m].1.kind is Directory && crate::sync::needs_deletion(
                remote[m].0,
                remote[m].1,
                local,
                rules,
            );
        assert(crate::text_map::rank(remote, path) == m);
    }
}

/// Every action of a plan speaks of an entry of the tree that it comes from: what
/// is sent or created stands in the local tree, what is deleted in the remote.
pub proof fn actions_speak_of_the_trees(
    actions: Seq<ActionView>,
    local: Seq<(Seq<char>, SnapshotEntry)>,
    remote: Seq<(Seq<char>, SnapshotEntry)>,
    rules: SyncRules,
    n: int,
)
    requires
        crate::sync::is_push_plan(actions, local, remote, rules),
        0 <= n < actions.len(),
    ensures
        match actions[n].kind {
            SyncActionKind::UploadFile => exists|k: int|
                0 <= k < local.len() && (#[trigger] local[k]).0 == actions[n].path
                    && local[k].1.kind == EntryKind::File && local[k].1.len == actions[n].bytes,
            SyncActionKind::CreateRemoteDirectory => actions[n].bytes == 0 && exists|k: int|
                0 <= k < local.len() && (#[trigger] local[k]).0 == actions[n].path
                    && local[k].1.kind == EntryKind::Directory,
            SyncActionKind::DeleteRemoteFile => actions[n].bytes == 0 && exists|k: int|
                0 <= k < remote.len() && (#[trigger] remote[k]).0 == actions[n].path
                    && remote[k].1.kind != EntryKind::Directory,
            SyncActionKind::DeleteRemoteDirectory => actions[n].bytes == 0 && exists|k: int|
                0 <= k < remote.len() && (#[trigger] remote[k]).0 == actions[n].path
                    && remote[k].1.kind == EntryKind::Directory,
        },
{
    crate::sync_law::planned_actions_are_called_for(actions, local, remote, rules, n);
}

/// Two entries have the same path and are of different kinds.
pub open spec fn disagree(
    local: (Seq<char>, SnapshotEntry),
    remote: (Seq<char>, SnapshotEntry),
) -> bool {
    local.0 == remote.0 && local.1.kind != remote.1.kind
}

proof fn lemma_conflict(
    local: Seq<(Seq<char>, SnapshotEntry)>,
    remote: Seq<(Seq<char>, SnapshotEntry)>,
    i: int,
) -> (found: (int, int))
    requires
        0 <= i <= local.len(),
        crate::text_map::sorted(remote),
    ensures
        match crate::sync::conflict_from(local, remote, i) {
            Some(path) => {
                &&& i <= found.0 < local.len()
                &&& 0 <= found.1 < remote.len()
                &&& disagree(local[found.0], remote[found.1])
                &&& local[found.0].0 == path
                &&& forall|m: int, n: int|
                    i <= m < found.0 && 0 <= n < remote.len() ==> !(#[trigger] disagree(
                        local[m],
                        remote[n],
                    ))
            },
            None => forall|m: int, n: int|
                i <= m < local.len() && 0 <= n < remote.len() ==> !(#[trigger] disagree(
                    local[m],
                    remote[n],
                )),
        },
    decreases local.len() - i,
{
    if i < local.len() {
        crate::text_map::lemma_lookup(remote, local[i].0);
        let j = crate::text_map::rank(remote, local[i].0);
        let later = lemma_conflict(local, remote, i + 1);
        match crate::text_map::lookup(remote, local[i].0) {
            Some(r) if r.kind != local[i].1.kind => (i, j),
            _ => {
                assert forall|n: int| 0 <= n < remote.len() implies !(#[trigger] disagree(
                    local[i],
                    remote[n],
                )) by {
                    if remote[n].0 == local[i].0 {
                        assert(crate::text_map::lookup(remote, local[i].0) == Some(remote[n].1));
                    }
                }
                later
            },
        }
    } else {
        (0, 0)
    }
}

/// A conflict is told exactly where both trees have a path with entries of
/// different kinds, and it is told of the first such path.
pub proof fn conflicts_are_between_kinds(
    local: Seq<(Seq<char>, SnapshotEntry)>,
    remote: Seq<(Seq<char>, SnapshotEntry)>,
)
    requires
        crate::text_map::sorted(remote),
    ensures
        match crate::sync::conflict_from(local, remote, 0) {
            Some(path) => exists|k: int, j: int|
                0 <= k < local.len() && 0 <= j < remote.len() && #[trigger] disagree(
                    local[k],
                    remote[j],
                ) && local[k].0 == path && (forall|m: int, n: int|
                    0 <= m < k && 0 <= n < remote.len() ==> !(#[trigger] disagree(
                        local[m],
                        remote[n],
                    ))),
            None => forall|k: int, j: int|
                0 <= k < local.len() && 0 <= j < remote.len() ==> !(#[trigger] disagree(
                    local[k],
                    remote[j],
                )),
        },
{
    let found = lemma_conflict(local, remote, 0);
    if crate::sync::conflict_from(local, remote, 0) is Some {
        assert(disagree(local[found.0], remote[found.1]));
    }
}

/// The parts of a plan, each of one kind.
proof fn lemma_kinds(
    actions: Seq<ActionView>,
    local: Seq<(Seq<char>, SnapshotEntry)>,
    remote: Seq<(Seq<char>, SnapshotEntry)>,
    rules: SyncRules,
    n: int,
)
    requires
        crate::sync::is_push_plan(actions, local, remote, rules),
        0 <= n < actions.len(),
    ensures
        ({
            let a = crate::sync::file_deletes_from(local, remote, rules, 0).len() as int;
            let b = a + crate::sync::directory_deletes_from(local, remote, rules, 0).len();
            let c = b + crate::sync::creates_from(local, remote, 0).len();
            &&& (n < a) == (actions[n].kind is DeleteRemoteFile)
            &&& (a <= n < b) == (actions[n].kind is DeleteRemoteDirectory)
            &&& (b <= n < c) == (actions[n].kind is CreateRemoteDirectory)
            &&& (c <= n) == (actions[n].kind is UploadFile)
        }),
{
    let files = crate::sync::file_deletes_from(local, remote, rules, 0);
    let directories = crate::sync::directory_deletes_from(local, remote, rules, 0);
    let creates = crate::sync::creates_from(local, remote, 0);
    let uploads = crate::sync::uploads_from(local, remote, rules, 0);
    let a = files.len() as int;
    let b = a + directories.len();
    let c = b + creates.len();
    let x = actions[n];
    lemma_all_kinds(local, remote, rules, 0);
    if n < a {
        assert(actions.subrange(0, a)[n] == x);
        assert(files[n].kind is DeleteRemoteFile);
    } else if n < b {
        let part = actions.subrange(a, b);
        assert(part[n - a] == x);
        lemma_members(directories, part, x);
        let j = choose|j: int| 0 <= j < directories.len() && directories[j] == x;
        assert(directories[j].kind is DeleteRemoteDirectory);
    } else if n < c {
        let part = actions.subrange(b, c);
        assert(part[n - b] == x);
        lemma_members(creates, part, x);
        let j = choose|j: int| 0 <= j < creates.len() && creates[j] == x;
        assert(creates[j].kind is CreateRemoteDirectory);
    } else {
        assert(actions.subrange(c, actions.len() as int)[n - c] == x);
        assert(uploads[n - c].kind is UploadFile);
    }
}

proof fn lemma_all_kinds(
    local: Seq<(Seq<char>, SnapshotEntry)>,
    remote: Seq<(Seq<char>, SnapshotEntry)>,
    rules: SyncRules,
    i: int,
)
    requires
        0 <= i,
    ensures
        forall|j: int|
            0 <= j < crate::sync::file_deletes_from(local, remote, rules, i).len() ==> (#[trigger] crate::sync::file_deletes_from(local, remote, rules, i)[j]).kind is DeleteRemoteFile,
        forall|j: int|
            0 <= j < crate::sync::directory_deletes_from(local, remote, rules, i).len() ==> (#[trigger] crate::sync::directory_deletes_from(local, remote, rules, i)[j]).kind is DeleteRemoteDirectory,
        forall|j: int|
            0 <= j < crate::sync::creates_from(local, remote, i).len() ==> (#[trigger] crate::sync::creates_from(local, remote, i)[j]).kind is CreateRemoteDirectory,
        forall|j: int|
            0 <= j < crate::sync::uploads_from(local, remote, rules, i).len() ==> (#[trigger] crate::sync::uploads_from(local, remote, rules, i)[j]).kind is UploadFile,
{
    lemma_delete_kinds(local, remote, rules, i);
    lemma_addition_kinds(local, remote, rules, i);
}

proof fn lemma_delete_kinds(
    local: Seq<(Seq<char>, SnapshotEntry)>,
    remote: Seq<(Seq<char>, SnapshotEntry)>,
    rules: SyncRules,
    i: int,
)
    requires
        0 <= i,
    ensures
        forall|j: int|
            0 <= j < crate::sync::file_deletes_from(local, remote, rules, i).len() ==> (#[trigger] crate::sync::file_deletes_from(local, remote, rules, i)[j]).kind is DeleteRemoteFile,
        forall|j: int|
            0 <= j < crate::sync::directory_deletes_from(local, remote, rules, i).len() ==> (#[trigger] crate::sync::directory_deletes_from(local, remote, rules, i)[j]).kind is DeleteRemoteDirectory,
    decreases remote.len() - i,
{
    if i < remote.len() {
        lemma_delete_kinds(local, remote, rules, i + 1);
        let files = crate::sync::file_deletes_from(local, remote, rules, i);
        let later = crate::sync::file_deletes_from(local, remote, rules, i + 1);
        assert forall|j: int| 0 <= j < files.len() implies (#[trigger] files[j]).kind is DeleteRemoteFile by {
            if files == later {
                assert(later[j].kind is DeleteRemoteFile);
            } else if j > 0 {
                assert(files[j] == later[j - 1]);
                assert(later[j - 1].kind is DeleteRemoteFile);
            }
        }
        let directories = crate::sync::directory_deletes_from(local, remote, rules, i);
        let rest = crate::sync::directory_deletes_from(local, remote, rules, i + 1);
        assert forall|j: int| 0 <= j < directories.len() implies (#[trigger] directories[j]).kind is DeleteRemoteDirectory by {
            if directories == rest {
                assert(rest[j].kind is DeleteRemoteDirectory);
            } else if j > 0 {
                assert(directories[j] == rest[j - 1]);
                assert(rest[j - 1].kind is DeleteRemoteDirectory);
            }
        }
    }
}

proof fn lemma_addition_kinds(
    local: Seq<(Seq<char>, SnapshotEntry)>,
    remote: Seq<(Seq<char>, SnapshotEntry)>,
    rules: SyncRules,
    i: int,
)
    requires
        0 <= i,
    ensures
        forall|j: int|
            0 <= j < crate::sync::creates_from(local, remote, i).len() ==> (#[trigger] crate::sync::creates_from(local, remote, i)[j]).kind is CreateRemoteDirectory,
        forall|j: int|
            0 <= j < crate::sync::uploads_from(local, remote, rules, i).len() ==> (#[trigger] crate::sync::uploads_from(local, remote, rules, i)[j]).kind is UploadFile,
    decreases local.len() - i,
{
    if i < local.len() {
        lemma_addition_kinds(local, remote, rules, i + 1);
        let creates = crate::sync::creates_from(local, remote, i);
        let later = crate::sync::creates_from(local, remote, i + 1);
        assert forall|j: int| 0 <= j < creates.len() implies (#[trigger] creates[j]).kind is CreateRemoteDirectory by {
            if creates == later {
                assert(later[j].kind is CreateRemoteDirectory);
            } else if j > 0 {
                assert(creates[j] == later[j - 1]);
                assert(later[j - 1].kind is CreateRemoteDirectory);
            }
        }
        let uploads = crate::sync::uploads_from(local, remote, rules, i);
        let rest = crate::sync::uploads_from(local, remote, rules, i + 1);
        assert forall|j: int| 0 <= j < uploads.len() implies (#[trigger] uploads[j]).kind is UploadFile by {
            if uploads == rest {
                assert(rest[j].kind is UploadFile);
            } else if j > 0 {
                assert(uploads[j] == rest[j - 1]);
                assert(rest[j - 1].kind is UploadFile);
            }
        }
    }
}

/// The place of an action in the order of a plan.
pub open spec fn turn(kind: SyncActionKind) -> int {
    match kind {
        SyncActionKind::DeleteRemoteFile => 0,
        SyncActionKind::DeleteRemoteDirectory => 1,
        SyncActionKind::CreateRemoteDirectory => 2,
        SyncActionKind::UploadFile => 3,
    }
}

/// The order of a plan: files go before directories, what goes before what
/// comes, and files come last.
pub proof fn plans_clear_before_they_fill(
    actions: Seq<ActionView>,
    local: Seq<(Seq<char>, SnapshotEntry)>,
    remote: Seq<(Seq<char>, SnapshotEntry)>,
    rules: SyncRules,
    m: int,
    n: int,
)
    requires
        crate::sync::is_push_plan(actions, local, remote, rules),
        0 <= m < n < actions.len(),
    ensures
        turn(actions[m].kind) <= turn(actions[n].kind),
{
    lemma_kinds(actions, local, remote, rules, m);
    lemma_kinds(actions, local, remote, rules, n);
}

proof fn lemma_depth_shift(a: Seq<Seq<char>>, b: Seq<Seq<char>>, i: int)
    requires
        0 <= i <= a.len(),
    ensures
        crate::sync::depth_from(a + b, i) == crate::sync::depth_from(a, i)
            + crate::sync::depth_from(b, 0),
    decreases a.len() - i,
{
    if i < a.len() {
        lemma_depth_shift(a, b, i + 1);
    } else {
        lemma_depth_tail(a, b, i);
    }
}

proof fn lemma_depth_tail(a: Seq<Seq<char>>, b: Seq<Seq<char>>, i: int)
    requires
        a.len() <= i <= a.len() + b.len(),
    ensures
        crate::sync::depth_from(a + b, i) == crate::sync::depth_from(b, i - a.len()),
    decreases a.len() + b.len() - i,
{
    if i < a.len() + b.len() {
        lemma_depth_tail(a, b, i + 1);
    }
}

proof fn lemma_deeper(parent: Seq<char>, rest: Seq<char>)
    requires
        rest.len() > 0,
        !rest.contains('/'),
    ensures
        crate::sync::depth(parent + seq!['/'] + rest) == crate::sync::depth(parent) + 1,
{
    crate::text_law::splitting_undoes_joining(parent, rest, '/');
    crate::text::lemma_position(rest, '/');
    let tail = crate::text::split(rest, '/');
    assert(tail =~= seq![rest]);
    lemma_depth_shift(crate::text::split(parent, '/'), tail, 0);
    assert(crate::sync::depth_from(tail, 1) == 0);
    assert(crate::sync::depth_from(tail, 0) == 1);
}

/// A directory is created before what is created in it, and deleted after what
/// is deleted in it.
pub proof fn parents_come_first_and_go_last(
    actions: Seq<ActionView>,
    local: Seq<(Seq<char>, SnapshotEntry)>,
    remote: Seq<(Seq<char>, SnapshotEntry)>,
    rules: SyncRules,
    m: int,
    n: int,
    name: Seq<char>,
)
    requires
        crate::sync::is_push_plan(actions, local, remote, rules),
        0 <= m < actions.len(),
        0 <= n < actions.len(),
        name.len() > 0,
        !name.contains('/'),
        actions[n].path == actions[m].path + seq!['/'] + name,
    ensures
        actions[m].kind is CreateRemoteDirectory && actions[n].kind is CreateRemoteDirectory ==> m
            < n,
        actions[m].kind is DeleteRemoteDirectory && actions[n].kind is DeleteRemoteDirectory ==> n
            < m,
{
    lemma_kinds(actions, local, remote, rules, m);
    lemma_kinds(actions, local, remote, rules, n);
    lemma_deeper(actions[m].path, name);
    let a = crate::sync::file_deletes_from(local, remote, rules, 0).len() as int;
    let b = a + crate::sync::directory_deletes_from(local, remote, rules, 0).len();
    let c = b + crate::sync::creates_from(local, remote, 0).len();
    assert(crate::sync::shallower(actions[m].path, actions[n].path));
    if b <= m < c && b <= n < c {
        let part = actions.subrange(b, c);
        assert(part[m - b] == actions[m]);
        assert(part[n - b] == actions[n]);
        if n < m {
            assert(!crate::sync::shallower(part[m - b].path, part[n - b].path));
        }
    }
    if a <= m < b && a <= n < b {
        let part = actions.subrange(a, b);
        assert(part[m - a] == actions[m]);
        assert(part[n - a] == actions[n]);
        if m < n {
            assert(!crate::sync::shallower(part[m - a].path, part[n - a].path));
        }
    }
}

/// All bytes of some actions.
pub open spec fn total_bytes(actions: Seq<ActionView>) -> int {
    actions.fold_left(0int, |sum: int, action: ActionView| sum + action.bytes)
}

/// How many of the actions are of a kind.
pub open spec fn how_many(actions: Seq<ActionView>, kind: SyncActionKind) -> nat {
    actions.filter(|action: ActionView| action.kind == kind).len()
}

proof fn lemma_total_bytes(actions: Seq<ActionView>, n: int)
    requires
        0 <= n <= actions.len(),
    ensures
        total_bytes(actions.take(n)) == crate::sync::bytes_before(actions, n),
    decreases n,
{
    if n > 0 {
        lemma_total_bytes(actions, n - 1);
        assert(actions.take(n).drop_last() =~= actions.take(n - 1));
        assert(actions.take(n).last() == actions[n - 1]);
    }
}

proof fn lemma_how_many(actions: Seq<ActionView>, kind: SyncActionKind, from: int, to: int)
    requires
        0 <= from <= to <= actions.len(),
        forall|n: int|
            0 <= n < actions.len() ==> (from <= n < to) == ((#[trigger] actions[n]).kind == kind),
    ensures
        how_many(actions, kind) == to - from,
    decreases actions.len(),
{
    reveal(Seq::filter);
    if actions.len() > 0 {
        let rest = actions.drop_last();
        let n = actions.len() - 1;
        assert(actions[n].kind == actions.last().kind);
        assert forall|m: int| 0 <= m < rest.len() implies (from <= m < (if to > rest.len() {
            rest.len() as int
        } else {
            to
        })) == ((#[trigger] rest[m]).kind == kind) by {
            assert(rest[m] == actions[m]);
        }
        if from > rest.len() {
            assert(from == to);
            lemma_how_many(rest, kind, rest.len() as int, rest.len() as int);
        } else if to > rest.len() {
            lemma_how_many(rest, kind, from, rest.len() as int);
        } else {
            lemma_how_many(rest, kind, from, to);
        }
    }
}

proof fn lemma_total_split(a: Seq<ActionView>, b: Seq<ActionView>)
    ensures
        total_bytes(a + b) == total_bytes(a) + total_bytes(b),
    decreases b.len(),
{
    if b.len() == 0 {
        assert(a + b =~= a);
    } else {
        lemma_total_split(a, b.drop_last());
        assert((a + b).drop_last() =~= a + b.drop_last());
        assert((a + b).last() == b.last());
    }
}

proof fn lemma_no_bytes(actions: Seq<ActionView>)
    requires
        forall|n: int| 0 <= n < actions.len() ==> (#[trigger] actions[n]).bytes == 0,
    ensures
        total_bytes(actions) == 0,
    decreases actions.len(),
{
    if actions.len() > 0 {
        assert(actions.last().bytes == 0);
        assert forall|n: int| 0 <= n < actions.drop_last().len() implies (
        #[trigger] actions.drop_last()[n]).bytes == 0 by {
            assert(actions.drop_last()[n] == actions[n]);
        }
        lemma_no_bytes(actions.drop_last());
    }
}

/// What a plan tells of itself is so: as many files are sent, directories
/// created and entries deleted as it says, and so many bytes go out.
pub proof fn plans_count_what_they_hold(
    plan: SyncPlan,
    local: Seq<(Seq<char>, SnapshotEntry)>,
    remote: Seq<(Seq<char>, SnapshotEntry)>,
    rules: SyncRules,
)
    requires
        crate::sync::is_push_plan(
            crate::sync::action_views(plan.actions@),
            local,
            remote,
            rules,
        ),
        crate::sync::plan_counts(plan, local, remote, rules),
    ensures
        ({
            let actions = crate::sync::action_views(plan.actions@);
            &&& plan.bytes_to_upload == total_bytes(actions)
            &&& plan.files_to_upload == how_many(actions, SyncActionKind::UploadFile)
            &&& plan.directories_to_create == how_many(
                actions,
                SyncActionKind::CreateRemoteDirectory,
            )
            &&& plan.entries_to_delete == how_many(actions, SyncActionKind::DeleteRemoteFile)
                + how_many(actions, SyncActionKind::DeleteRemoteDirectory)
        }),
{
    let actions = crate::sync::action_views(plan.actions@);
    let uploads = crate::sync::uploads_from(local, remote, rules, 0);
    let a = crate::sync::file_deletes_from(local, remote, rules, 0).len() as int;
    let b = a + crate::sync::directory_deletes_from(local, remote, rules, 0).len();
    let c = b + crate::sync::creates_from(local, remote, 0).len();
    let n = actions.len() as int;
    assert forall|i: int| 0 <= i < n implies (0 <= i < a) == ((#[trigger] actions[i]).kind
        == SyncActionKind::DeleteRemoteFile) && (a <= i < b) == (actions[i].kind
        == SyncActionKind::DeleteRemoteDirectory) && (b <= i < c) == (actions[i].kind
        == SyncActionKind::CreateRemoteDirectory) && (c <= i < n) == (actions[i].kind
        == SyncActionKind::UploadFile) by {
        lemma_kinds(actions, local, remote, rules, i);
    }
    lemma_how_many(actions, SyncActionKind::DeleteRemoteFile, 0, a);
    lemma_how_many(actions, SyncActionKind::DeleteRemoteDirectory, a, b);
    lemma_how_many(actions, SyncActionKind::CreateRemoteDirectory, b, c);
    lemma_how_many(actions, SyncActionKind::UploadFile, c, n);
    let head = actions.take(c);
    assert(actions =~= head + actions.subrange(c, n));
    lemma_total_split(head, uploads);
    assert forall|i: int| 0 <= i < head.len() implies (#[trigger] head[i]).bytes == 0 by {
        actions_speak_of_the_trees(actions, local, remote, rules, i);
        assert(head[i] == actions[i]);
    }
    lemma_no_bytes(head);
    lemma_total_bytes(uploads, uploads.len() as int);
    assert(uploads.take(uploads.len() as int) =~= uploads);
}

} // verus!
