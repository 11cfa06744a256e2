//! What holds of every plan that makes a remote tree match a local one.

use vstd::prelude::*;

use crate::sync::ActionView;
use crate::sync::SnapshotEntry;
use crate::sync::SyncActionKind;
use crate::sync::SyncRules;
use crate::sync_preflight::PlannedMutation;

verus! {

/// The action is one of those that the plan has for the two trees.
pub open spec fn is_called_for(
    action: ActionView,
    local: Seq<(Seq<char>, SnapshotEntry)>,
    remote: Seq<(Seq<char>, SnapshotEntry)>,
    rules: SyncRules,
) -> bool {
    match action.kind {
        SyncActionKind::DeleteRemoteFile => action.bytes == 0 && exists|k: int|
            0 <= k < remote.len() && (#[trigger] remote[k]).0 == action.path && !(
            remote[k].1.kind is Directory) && crate::sync::needs_deletion(
                remote[k].0,
                remote[k].1,
                local,
                rules,
            ),
        SyncActionKind::DeleteRemoteDirectory => action.bytes == 0 && exists|k: int|
            0 <= k < remote.len() && (#[trigger] remote[k]).0 == action.path
                && remote[k].1.kind is Directory && crate::sync::needs_deletion(
                remote[k].0,
                remote[k].1,
                local,
                rules,
            ),
        SyncActionKind::CreateRemoteDirectory => action.bytes == 0 && exists|k: int|
            0 <= k < local.len() && (#[trigger] local[k]).0 == action.path
                && crate::sync::needs_directory(local[k].0, local[k].1, remote),
        SyncActionKind::UploadFile => exists|k: int|
            0 <= k < local.len() && (#[trigger] local[k]).0 == action.path && local[k].1.len
                == action.bytes && crate::sync::needs_upload(
                local[k].0,
                local[k].1,
                remote,
                rules,
            ),
    }
}

proof fn lemma_deletes_called_for(
    local: Seq<(Seq<char>, SnapshotEntry)>,
    remote: Seq<(Seq<char>, SnapshotEntry)>,
    rules: SyncRules,
    i: int,
    action: ActionView,
)
    requires
        0 <= i,
        crate::sync::file_deletes_from(local, remote, rules, i).contains(action)
            || crate::sync::directory_deletes_from(local, remote, rules, i).contains(action),
    ensures
        is_called_for(action, local, remote, rules),
    decreases remote.len() - i,
{
    let files = crate::sync::file_deletes_from(local, remote, rules, i);
    let directories = crate::sync::directory_deletes_from(local, remote, rules, i);
    if i < remote.len() {
        let path = remote[i].0;
        assert(remote[i].0 == path);
        let later_files = crate::sync::file_deletes_from(local, remote, rules, i + 1);
        let later_directories = crate::sync::directory_deletes_from(local, remote, rules, i + 1);
        if files.contains(action) {
            let k = choose|k: int| 0 <= k < files.len() && files[k] == action;
            if files == later_files {
                assert(later_files[k] == action);
                lemma_deletes_called_for(local, remote, rules, i + 1, action);
            } else if k > 0 {
                assert(later_files[k - 1] == action);
                lemma_deletes_called_for(local, remote, rules, i + 1, action);
            }
        } else {
            let k = choose|k: int| 0 <= k < directories.len() && directories[k] == action;
            if directories == later_directories {
                assert(later_directories[k] == action);
                lemma_deletes_called_for(local, remote, rules, i + 1, action);
            } else if k > 0 {
                assert(later_directories[k - 1] == action);
                lemma_deletes_called_for(local, remote, rules, i + 1, action);
            }
        }
    }
}

proof fn lemma_additions_called_for(
    local: Seq<(Seq<char>, SnapshotEntry)>,
    remote: Seq<(Seq<char>, SnapshotEntry)>,
    rules: SyncRules,
    i: int,
    action: ActionView,
)
    requires
        0 <= i,
        crate::sync::creates_from(local, remote, i).contains(action) || crate::sync::uploads_from(
            local,
            remote,
            rules,
            i,
        ).contains(action),
    ensures
        is_called_for(action, local, remote, rules),
    decreases local.len() - i,
{
    let creates = crate::sync::creates_from(local, remote, i);
    let uploads = crate::sync::uploads_from(local, remote, rules, i);
    if i < local.len() {
        let path = local[i].0;
        assert(local[i].0 == path);
        let later_creates = crate::sync::creates_from(local, remote, i + 1);
        let later_uploads = crate::sync::uploads_from(local, remote, rules, i + 1);
        if creates.contains(action) {
            let k = choose|k: int| 0 <= k < creates.len() && creates[k] == action;
            if creates == later_creates {
                assert(later_creates[k] == action);
                lemma_additions_called_for(local, remote, rules, i + 1, action);
            } else if k > 0 {
                assert(later_creates[k - 1] == action);
                lemma_additions_called_for(local, remote, rules, i + 1, action);
            }
        } else {
            let k = choose|k: int| 0 <= k < uploads.len() && uploads[k] == action;
            if uploads == later_uploads {
                assert(later_uploads[k] == action);
                lemma_additions_called_for(local, remote, rules, i + 1, action);
            } else if k > 0 {
                assert(later_uploads[k - 1] == action);
                lemma_additions_called_for(local, remote, rules, i + 1, action);
            }
        }
    }
}

proof fn lemma_same_members(a: Seq<ActionView>, b: Seq<ActionView>, x: ActionView)
    requires
        a.to_multiset() == b.to_multiset(),
        a.contains(x),
    ensures
        b.contains(x),
{
    broadcast use vstd::seq_lib::group_to_multiset_ensures;

    assert(a.to_multiset().count(x) > 0);
    assert(b.to_multiset().count(x) > 0);
}

/// Every action of a plan is called for by an entry of one of the trees: it
/// deletes what needs deleting, creates a directory that is missing, or sends a
/// file that is missing or differs.
pub proof fn planned_actions_are_called_for(
    actions: Seq<ActionView>,
    local: Seq<(Seq<char>, SnapshotEntry)>,
    remote: Seq<(Seq<char>, SnapshotEntry)>,
    rules: SyncRules,
    k: int,
)
    requires
        crate::sync::is_push_plan(actions, local, remote, rules),
        0 <= k < actions.len(),
    ensures
        is_called_for(actions[k], local, remote, rules),
{
    let files = crate::sync::file_deletes_from(local, remote, rules, 0);
    let directories = crate::sync::directory_deletes_from(local, remote, rules, 0);
    let creates = crate::sync::creates_from(local, remote, 0);
    let uploads = crate::sync::uploads_from(local, remote, rules, 0);
    let a = files.len() as int;
    let b = a + directories.len();
    let c = b + creates.len();
    let x = actions[k];
    if k < a {
        assert(actions.subrange(0, a)[k] == x);
        lemma_deletes_called_for(local, remote, rules, 0, x);
    } else if k < b {
        assert(actions.subrange(a, b)[k - a] == x);
        lemma_same_members(actions.subrange(a, b), directories, x);
        lemma_deletes_called_for(local, remote, rules, 0, x);
    } else if k < c {
        assert(actions.subrange(b, c)[k - b] == x);
        lemma_same_members(actions.subrange(b, c), creates, x);
        lemma_additions_called_for(local, remote, rules, 0, x);
    } else {
        assert(actions.subrange(c, actions.len() as int)[k - c] == x);
        lemma_additions_called_for(local, remote, rules, 0, x);
    }
}

/// Without leave to delete, a plan deletes nothing.
pub proof fn nothing_is_deleted_without_leave(
    actions: Seq<ActionView>,
    local: Seq<(Seq<char>, SnapshotEntry)>,
    remote: Seq<(Seq<char>, SnapshotEntry)>,
    rules: SyncRules,
    k: int,
)
    requires
        crate::sync::is_push_plan(actions, local, remote, rules),
        !rules.delete,
        0 <= k < actions.len(),
    ensures
        actions[k].kind is CreateRemoteDirectory || actions[k].kind is UploadFile,
{
    planned_actions_are_called_for(actions, local, remote, rules, k);
}

proof fn lemma_nothing_to_do(tree: Seq<(Seq<char>, SnapshotEntry)>, rules: SyncRules, i: int)
    requires
        0 <= i,
        crate::text_map::sorted(tree),
        forall|k: int|
            0 <= k < tree.len() ==> rules.size_only || (#[trigger] tree[k]).1.mtime is Some,
    ensures
        crate::sync::file_deletes_from(tree, tree, rules, i).len() == 0,
        crate::sync::directory_deletes_from(tree, tree, rules, i).len() == 0,
        crate::sync::creates_from(tree, tree, i).len() == 0,
        crate::sync::uploads_from(tree, tree, rules, i).len() == 0,
    decreases tree.len() - i,
{
    if i < tree.len() {
        crate::text_map::lemma_lookup(tree, tree[i].0);
        assert(crate::text_map::lookup(tree, tree[i].0) == Some(tree[i].1));
        lemma_nothing_to_do(tree, rules, i + 1);
    }
}

/// Trees that are alike need no action. Where times count, they have to be
/// known.
pub proof fn equal_trees_need_nothing(
    actions: Seq<ActionView>,
    tree: Seq<(Seq<char>, SnapshotEntry)>,
    rules: SyncRules,
)
    requires
        crate::sync::is_push_plan(actions, tree, tree, rules),
        crate::text_map::sorted(tree),
        forall|k: int|
            0 <= k < tree.len() ==> rules.size_only || (#[trigger] tree[k]).1.mtime is Some,
    ensures
        actions.len() == 0,
{
    lemma_nothing_to_do(tree, rules, 0);
}

/// The notes hold exactly the indices of the actions before `n`.
spec fn tells(
    mutations: Seq<(Seq<char>, PlannedMutation)>,
    actions: Seq<ActionView>,
    n: int,
) -> bool {
    &&& forall|path: Seq<char>, kind: SyncActionKind|
        #[trigger] crate::sync_preflight::planned_at(mutations, path).slot(kind) matches Some(x)
            ==> x < n && actions[x as int].kind == kind && actions[x as int].path == path
    &&& forall|x: int|
        0 <= x < n && !((#[trigger] actions[x]).kind is UploadFile)
            ==> crate::sync_preflight::planned_at(mutations, actions[x].path).slot(actions[x].kind)
            == Some(x as usize)
}

proof fn lemma_noted(
    mutations: Seq<(Seq<char>, PlannedMutation)>,
    actions: Seq<ActionView>,
    i: int,
)
    requires
        crate::text_map::sorted(mutations),
        0 <= i <= actions.len() <= usize::MAX,
        tells(mutations, actions, i),
    ensures
        crate::sync_preflight::noted_from(mutations, actions, i) matches Ok(all) ==> tells(
            all,
            actions,
            actions.len() as int,
        ) && crate::text_map::sorted(all),
    decreases actions.len() - i,
{
    if i < actions.len() {
        let action = actions[i];
        let m = crate::sync_preflight::planned_at(mutations, action.path);
        if action.kind is UploadFile {
            assert(tells(mutations, actions, i + 1));
            lemma_noted(mutations, actions, i + 1);
        } else if m.slot(action.kind) is None {
            let noted = m.noted(action.kind, i as usize);
            let after = crate::text_map::put(mutations, action.path, noted);
            crate::text_map::lemma_put(mutations, action.path, noted);
            assert forall|path: Seq<char>, kind: SyncActionKind|
                (#[trigger] crate::sync_preflight::planned_at(after, path).slot(kind) matches Some(
                    x,
                ) ==> x < i + 1 && actions[x as int].kind == kind && actions[x as int].path
                    == path) by {
                let x = crate::sync_preflight::planned_at(after, path).slot(kind)->0;
                if crate::sync_preflight::planned_at(after, path).slot(kind) is Some {
                    if path != action.path {
                        assert(crate::text_map::lookup(after, path) == crate::text_map::lookup(
                            mutations,
                            path,
                        ));
                        assert(crate::sync_preflight::planned_at(mutations, path).slot(kind)
                            == Some(x));
                    } else if kind != action.kind {
                        assert(m.slot(kind) == Some(x));
                    }
                }
            }
            assert forall|x: int|
                0 <= x < i + 1 && !((#[trigger] actions[x]).kind is UploadFile) implies
                crate::sync_preflight::planned_at(after, actions[x].path).slot(actions[x].kind)
                == Some(x as usize) by {
                if x < i {
                    let path = actions[x].path;
                    assert(crate::sync_preflight::planned_at(mutations, path).slot(actions[x].kind)
                        == Some(x as usize));
                    if path != action.path {
                        assert(crate::text_map::lookup(after, path) == crate::text_map::lookup(
                            mutations,
                            path,
                        ));
                    }
                }
            }
            lemma_noted(after, actions, i + 1);
        }
    }
}

proof fn lemma_no_contradiction(
    mutations: Seq<(Seq<char>, PlannedMutation)>,
    k: int,
    path: Seq<char>,
)
    requires
        crate::text_map::sorted(mutations),
        0 <= k,
        crate::sync_preflight::contradiction_from(mutations, k) is None,
        crate::text_map::lookup(mutations, path) is Some,
        k <= crate::text_map::rank(mutations, path),
    ensures
        crate::sync_preflight::mutation_problem(
            crate::sync_preflight::planned_at(mutations, path),
        ) is None,
    decreases mutations.len() - k,
{
    if k < crate::text_map::rank(mutations, path) {
        lemma_no_contradiction(mutations, k + 1, path);
    }
}

/// In a plan that passes the check a path is created at most once, deleted at
/// most once, and deleted before it is created.
pub proof fn accepted_plans_do_not_contradict_themselves(
    actions: Seq<ActionView>,
    x: int,
    y: int,
)
    requires
        actions.len() <= usize::MAX,
        crate::sync_preflight::planned_mutations(actions) is Ok,
        0 <= x < y < actions.len(),
        !(actions[x].kind is UploadFile),
        !(actions[y].kind is UploadFile),
        actions[x].path == actions[y].path,
    ensures
        actions[y].kind is CreateRemoteDirectory,
        !(actions[x].kind is CreateRemoteDirectory),
{
    let none = Seq::<(Seq<char>, PlannedMutation)>::empty();
    assert(tells(none, actions, 0)) by {
        assert forall|path: Seq<char>, kind: SyncActionKind|
            (#[trigger] crate::sync_preflight::planned_at(none, path).slot(kind)) is None by {
            assert(crate::text_map::rank(none, path) == 0);
        }
    }
    lemma_noted(none, actions, 0);
    let all = crate::sync_preflight::planned_mutations(actions)->Ok_0;
    let path = actions[x].path;
    crate::text_map::lemma_rank(all, path);
    assert(crate::sync_preflight::planned_at(all, path).slot(actions[x].kind) == Some(x as usize));
    assert(crate::sync_preflight::planned_at(all, path).slot(actions[y].kind) == Some(y as usize));
    lemma_no_contradiction(all, 0, path);
}

} // verus!
