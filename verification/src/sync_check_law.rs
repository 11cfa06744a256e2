//! Laws of what is looked at before a plan is carried out: paths, sources and
//! destinations.

use vstd::prelude::*;

use crate::nodes::Node;
use crate::remote_path::LocalPaths;
use crate::remote_path::RemotePathProblem;
use crate::sync::ActionView;
use crate::sync::SyncActionKind;
use crate::sync::SyncProblem;
use crate::sync_apply::StepView;
use crate::sync_preflight::PlannedMutation;

verus! {

/// A name of one entry below a root: not empty, neither one dot nor two, and
/// without a slash, a backslash or a zero character.
pub open spec fn is_name(name: Seq<char>) -> bool {
    &&& name.len() > 0 && name != seq!['.'] && name != seq!['.', '.']
    &&& !name.contains('/') && !name.contains('\\') && !name.contains('\0')
}

proof fn lemma_name(name: Seq<char>)
    ensures
        crate::remote_path::child_name_problem(name) is None == is_name(name),
{
    reveal_strlit(".");
    reveal_strlit("..");
    assert("."@ =~= seq!['.']);
    assert(".."@ =~= seq!['.', '.']);
}

/// A name is accepted exactly where it is one; what goes up is told apart.
pub proof fn accepted_names_stay_in_place(name: Seq<char>)
    ensures
        crate::remote_path::child_name_problem(name) is None == is_name(name),
        name == seq!['.', '.'] || name == seq!['.'] ==> crate::remote_path::child_name_problem(name)
            == Some(RemotePathProblem::Traversal),
        name.len() == 0 ==> crate::remote_path::child_name_problem(name) == Some(
            RemotePathProblem::EmptyName,
        ),
{
    lemma_name(name);
    reveal_strlit(".");
    reveal_strlit("..");
    assert("."@ =~= seq!['.']);
    assert(".."@ =~= seq!['.', '.']);
}

proof fn lemma_parts(parts: Seq<Seq<char>>, i: int)
    requires
        0 <= i <= parts.len(),
    ensures
        crate::remote_path::parts_problem(parts, i) is None == forall|k: int|
            i <= k < parts.len() ==> is_name(#[trigger] parts[k]),
    decreases parts.len() - i,
{
    if i < parts.len() {
        lemma_parts(parts, i + 1);
        lemma_name(parts[i]);
    }
}

/// A path below a root is accepted step by step: a name alone is, and one more
/// name below a path that is; nothing else may stand between slashes.
pub proof fn paths_are_accepted_step_by_step(path: Seq<char>, name: Seq<char>)
    requires
        !name.contains('/'),
    ensures
        crate::remote_path::relative_path_problem(name) is None == is_name(name),
        path.len() > 0 ==> (crate::remote_path::relative_path_problem(
            path + seq!['/'] + name,
        ) is None) == (crate::remote_path::relative_path_problem(path) is None && is_name(name)),
{
    crate::text_law::plain_text_is_one_part(name, '/');
    let one = seq![name];
    lemma_parts(one, 0);
    assert(one[0] == name);
    if name.len() > 0 {
        assert(name.contains(name[0]));
    }
    if path.len() > 0 {
        let all = path + seq!['/'] + name;
        crate::text_law::splitting_undoes_joining(path, name, '/');
        let parts = crate::text::split(path, '/');
        let more = parts + seq![name];
        lemma_parts(parts, 0);
        lemma_parts(more, 0);
        assert(more[parts.len() as int] == name);
        assert forall|k: int| 0 <= k < parts.len() implies more[k] == #[trigger] parts[k] by {}
        if crate::remote_path::parts_problem(more, 0) is None {
            assert forall|k: int| 0 <= k < parts.len() implies is_name(#[trigger] parts[k]) by {
                assert(is_name(more[k]));
            }
            assert(is_name(more[parts.len() as int]));
        }
        if crate::remote_path::parts_problem(parts, 0) is None && is_name(name) {
            assert forall|k: int| 0 <= k < more.len() implies is_name(#[trigger] more[k]) by {
                if k < parts.len() {
                    assert(is_name(parts[k]));
                }
            }
        }
        assert(all[0] == path[0]);
        assert(all.contains('\0') == (path.contains('\0') || name.contains('\0'))) by {
            if path.contains('\0') {
                let i = choose|i: int| 0 <= i < path.len() && path[i] == '\0';
                assert(all[i] == '\0');
            }
            if name.contains('\0') {
                let i = choose|i: int| 0 <= i < name.len() && name[i] == '\0';
                assert(all[path.len() + 1 + i] == '\0');
            }
            if all.contains('\0') {
                let i = choose|i: int| 0 <= i < all.len() && all[i] == '\0';
                if i < path.len() {
                    assert(path[i] == '\0');
                } else if i > path.len() {
                    assert(name[i - path.len() - 1] == '\0');
                }
            }
        }
    }
}

/// A path below a root stands behind it and one slash; the directory where one
/// stands is not named.
pub proof fn paths_stand_below_their_root(root: Seq<char>, relative: Seq<char>)
    ensures
        crate::remote_path::under_root(Seq::empty(), relative) == relative,
        crate::remote_path::under_root(seq!['.'], relative) == relative,
        root.len() > 0 && root != seq!['.'] && root.last() != '/' ==> {
            &&& crate::remote_path::under_root(root, relative) == root + seq!['/'] + relative
            &&& crate::remote_path::under_root(root + seq!['/'], relative) == root + seq!['/']
                + relative
        },
{
    reveal_strlit(".");
    assert("."@ =~= seq!['.']);
    if root.len() > 0 {
        assert((root + seq!['/']).len() >= 2);
    }
}

/// On Windows a part that names a drive is refused; elsewhere it is not.
pub proof fn drives_are_refused_on_windows(name: Seq<char>)
    requires
        is_name(name),
    ensures
        crate::remote_path::local_path_problem(name, LocalPaths::Posix) is None,
        crate::remote_path::local_path_problem(name, LocalPaths::Windows) is None == !(name.len()
            >= 2 && ('a' <= name[0] <= 'z' || 'A' <= name[0] <= 'Z') && name[1] == ':'),
{
    paths_are_accepted_step_by_step(name, name);
    crate::text_law::plain_text_is_one_part(name, '/');
    let one = seq![name];
    assert(one[0] == name);
    if crate::remote_path::any_drive(one) {
        let i = choose|i: int|
            0 <= i < one.len() && crate::remote_path::has_drive(#[trigger] one[i]);
        assert(one[i] == name);
    }
}

/// What is found below a directory has the path of the directory, a slash and
/// its name; below the root it has its name.
pub proof fn found_entries_have_their_path(parent: Seq<char>, child: Seq<char>)
    ensures
        crate::sync_scan::relative_join(Seq::empty(), child) == child,
        parent.len() > 0 ==> crate::sync_scan::relative_join(parent, child) == parent + seq!['/']
            + child,
{
    reveal_strlit("/");
    assert("/"@ =~= seq!['/']);
}

/// An upload has its place exactly where no directory is to be created there,
/// and there is nothing, which nothing removes, or what is there is removed as
/// what it is.
pub proof fn destinations_are_free_in_time(current: Node, m: PlannedMutation)
    ensures
        crate::sync_preflight::destination_problem(current, m) is None == {
            &&& m.create_directory is None
            &&& current is Missing ==> m.delete_file is None && m.delete_directory is None
            &&& current is Directory ==> m.delete_directory is Some && m.delete_file is None
            &&& !(current is Missing) && !(current is Directory) ==> m.delete_file is Some
                && m.delete_directory is None
        },
        m == crate::sync_preflight::no_mutation() && !(current is Missing)
            ==> crate::sync_preflight::destination_problem(current, m) == Some(
            SyncProblem::AtomicOverwrite,
        ),
{
}

/// Below a directory that is not there yet nothing can be removed, and no upload
/// goes where a directory is created.
pub proof fn nothing_is_removed_where_nothing_is(path: Seq<char>, m: PlannedMutation)
    ensures
        crate::sync_preflight::fresh_parent_problem(path, m) is None == (m.delete_file is None
            && m.delete_directory is None),
        crate::sync_preflight::fresh_upload_problem(path, m) is None == (m.delete_file is None
            && m.delete_directory is None && m.create_directory is None),
{
}

/// The path of the first `k` parts.
pub open spec fn way(prefix: Seq<char>, parts: Seq<Seq<char>>, i: int, k: int) -> Seq<char>
    decreases k - i,
{
    if k <= i {
        prefix
    } else {
        crate::sync_scan::relative_join(way(prefix, parts, i, k - 1), parts[k - 1])
    }
}

proof fn lemma_way(prefix: Seq<char>, parts: Seq<Seq<char>>, i: int, k: int)
    requires
        i < k,
    ensures
        way(prefix, parts, i, k) == way(
            crate::sync_scan::relative_join(prefix, parts[i]),
            parts,
            i + 1,
            k,
        ),
    decreases k - i,
{
    if k > i + 1 {
        lemma_way(prefix, parts, i, k - 1);
    } else {
        reveal_with_fuel(way, 2);
    }
}

/// The first `k` parts are a directory that nothing removes.
pub open spec fn stays_directory(
    root: Seq<char>,
    path: Seq<char>,
    mutations: Seq<(Seq<char>, PlannedMutation)>,
    book: Seq<(Seq<char>, Node)>,
) -> bool {
    let m = crate::sync_preflight::planned_at(mutations, path);
    &&& crate::text_map::lookup(book, crate::remote_path::under_root(root, path)) == Some(
        Node::Directory,
    )
    &&& m.delete_file is None && m.delete_directory is None
}

/// The first `k` parts are not there and nothing removes them, or they are a file
/// that a directory takes the place of.
pub open spec fn becomes_directory(
    root: Seq<char>,
    path: Seq<char>,
    mutations: Seq<(Seq<char>, PlannedMutation)>,
    book: Seq<(Seq<char>, Node)>,
) -> bool {
    let m = crate::sync_preflight::planned_at(mutations, path);
    match crate::text_map::lookup(book, crate::remote_path::under_root(root, path)) {
        Some(Node::Missing) => m.delete_file is None && m.delete_directory is None,
        Some(Node::Directory) => false,
        Some(_) => m.delete_file is Some && m.delete_directory is None && m.create_directory is Some,
        None => false,
    }
}

/// An upload that is let through goes through directories that stay, and then,
/// from the first one on that is still to come, through nothing that is removed.
/// At its end it goes where its place is free.
pub proof fn uploads_go_through_directories(
    root: Seq<char>,
    parts: Seq<Seq<char>>,
    prefix: Seq<char>,
    mutations: Seq<(Seq<char>, PlannedMutation)>,
    book: Seq<(Seq<char>, Node)>,
    i: int,
) -> (turn: int)
    requires
        0 <= i < parts.len(),
        crate::sync_preflight::upload_problem_from(
            root,
            parts,
            prefix,
            false,
            mutations,
            book,
            i,
        ) is None,
    ensures
        i < turn <= parts.len(),
        forall|k: int|
            i < k < turn ==> stays_directory(
                root,
                #[trigger] way(prefix, parts, i, k),
                mutations,
                book,
            ),
        turn < parts.len() ==> {
            &&& becomes_directory(root, way(prefix, parts, i, turn), mutations, book)
            &&& forall|k: int|
                turn < k <= parts.len() ==> {
                    let m = crate::sync_preflight::planned_at(
                        mutations,
                        #[trigger] way(prefix, parts, i, k),
                    );
                    m.delete_file is None && m.delete_directory is None && (k == parts.len()
                        ==> m.create_directory is None)
                }
        },
        turn == parts.len() ==> {
            let path = way(prefix, parts, i, turn);
            &&& crate::text_map::lookup(
                book,
                crate::remote_path::under_root(root, path),
            ) matches Some(node)
            &&& crate::sync_preflight::destination_problem(
                node,
                crate::sync_preflight::planned_at(mutations, path),
            ) is None
        },
    decreases parts.len() - i,
{
    let here = crate::sync_scan::relative_join(prefix, parts[i]);
    reveal_with_fuel(way, 2);
    assert(way(prefix, parts, i, i + 1) == here);
    if i + 1 == parts.len() {
        i + 1
    } else if stays_directory(root, here, mutations, book) {
        let turn = uploads_go_through_directories(root, parts, here, mutations, book, i + 1);
        assert forall|k: int| i < k < turn implies stays_directory(
            root,
            #[trigger] way(prefix, parts, i, k),
            mutations,
            book,
        ) by {
            lemma_way(prefix, parts, i, k);
        }
        lemma_way(prefix, parts, i, turn);
        assert forall|k: int| turn < k <= parts.len() && turn < parts.len() implies {
            let m = crate::sync_preflight::planned_at(
                mutations,
                #[trigger] way(prefix, parts, i, k),
            );
            m.delete_file is None && m.delete_directory is None && (k == parts.len()
                ==> m.create_directory is None)
        } by {
            lemma_way(prefix, parts, i, k);
        }
        turn
    } else {
        assert forall|k: int| i + 1 < k <= parts.len() implies {
            let m = crate::sync_preflight::planned_at(
                mutations,
                #[trigger] way(prefix, parts, i, k),
            );
            m.delete_file is None && m.delete_directory is None && (k == parts.len()
                ==> m.create_directory is None)
        } by {
            lemma_way(prefix, parts, i, k);
            lemma_fresh(root, parts, here, mutations, book, i + 1, k);
        }
        i + 1
    }
}

proof fn lemma_fresh(
    root: Seq<char>,
    parts: Seq<Seq<char>>,
    prefix: Seq<char>,
    mutations: Seq<(Seq<char>, PlannedMutation)>,
    book: Seq<(Seq<char>, Node)>,
    i: int,
    k: int,
)
    requires
        0 <= i < k <= parts.len(),
        crate::sync_preflight::upload_problem_from(
            root,
            parts,
            prefix,
            true,
            mutations,
            book,
            i,
        ) is None,
    ensures
        ({
            let m = crate::sync_preflight::planned_at(mutations, way(prefix, parts, i, k));
            m.delete_file is None && m.delete_directory is None && (k == parts.len()
                ==> m.create_directory is None)
        }),
    decreases parts.len() - i,
{
    let here = crate::sync_scan::relative_join(prefix, parts[i]);
    lemma_way(prefix, parts, i, k);
    if k == i + 1 {
        reveal_with_fuel(way, 2);
    } else {
        lemma_fresh(root, parts, here, mutations, book, i + 1, k);
    }
}

/// The local path of the first `k` parts.
pub open spec fn local_way(root: Seq<char>, parts: Seq<Seq<char>>, i: int, k: int) -> Seq<char>
    decreases k - i,
{
    if k <= i {
        root
    } else {
        crate::paths::path_join(local_way(root, parts, i, k - 1), parts[k - 1])
    }
}

proof fn lemma_local_way(root: Seq<char>, parts: Seq<Seq<char>>, i: int, k: int)
    requires
        i < k,
    ensures
        local_way(root, parts, i, k) == local_way(
            crate::paths::path_join(root, parts[i]),
            parts,
            i + 1,
            k,
        ),
    decreases k - i,
{
    if k > i + 1 {
        lemma_local_way(root, parts, i, k - 1);
    } else {
        reveal_with_fuel(local_way, 2);
    }
}

/// A source is as planned exactly where it is a file of the length that was
/// planned, below directories alone.
pub proof fn sources_are_as_planned(
    root: Seq<char>,
    parts: Seq<Seq<char>>,
    bytes: u64,
    book: Seq<(Seq<char>, Node)>,
    i: int,
)
    requires
        0 <= i < parts.len(),
    ensures
        crate::sync_preflight::source_problem_from(root, parts, bytes, book, i) is None == {
            &&& crate::text_map::lookup(book, local_way(root, parts, i, parts.len() as int))
                == Some(Node::File { len: bytes })
            &&& forall|k: int|
                i < k < parts.len() ==> crate::text_map::lookup(
                    book,
                    #[trigger] local_way(root, parts, i, k),
                ) == Some(Node::Directory)
        },
    decreases parts.len() - i,
{
    let here = crate::paths::path_join(root, parts[i]);
    reveal_with_fuel(local_way, 2);
    assert(local_way(root, parts, i, i + 1) == here);
    if i + 1 < parts.len() {
        sources_are_as_planned(here, parts, bytes, book, i + 1);
        lemma_local_way(root, parts, i, parts.len() as int);
        assert forall|k: int| i + 1 < k < parts.len() implies #[trigger] local_way(
            root,
            parts,
            i,
            k,
        ) == local_way(here, parts, i + 1, k) by {
            lemma_local_way(root, parts, i, k);
        }
        if crate::text_map::lookup(book, here) == Some(Node::Directory) {
            if forall|k: int|
                i + 1 < k < parts.len() ==> crate::text_map::lookup(
                    book,
                    #[trigger] local_way(here, parts, i + 1, k),
                ) == Some(Node::Directory) {
                assert forall|k: int| i < k < parts.len() implies crate::text_map::lookup(
                    book,
                    #[trigger] local_way(root, parts, i, k),
                ) == Some(Node::Directory) by {
                    if k > i + 1 {
                        assert(local_way(root, parts, i, k) == local_way(here, parts, i + 1, k));
                    }
                }
            } else {
                let k = choose|k: int|
                    i + 1 < k < parts.len() && crate::text_map::lookup(
                        book,
                        #[trigger] local_way(here, parts, i + 1, k),
                    ) != Some(Node::Directory);
                assert(local_way(root, parts, i, k) == local_way(here, parts, i + 1, k));
            }
        } else {
            assert(crate::text_map::lookup(book, local_way(root, parts, i, i + 1)) != Some(
                Node::Directory,
            ));
        }
    }
}

/// Every upload is checked: where the sources of a plan are accepted, that of
/// each upload is as planned.
pub proof fn all_sources_are_checked(
    root: Seq<char>,
    actions: Seq<ActionView>,
    platform: LocalPaths,
    book: Seq<(Seq<char>, Node)>,
    i: int,
    k: int,
)
    requires
        0 <= i <= k < actions.len(),
        actions[k].kind is UploadFile,
        crate::sync_preflight::sources_problem_from(root, actions, platform, book, i) is None,
    ensures
        crate::remote_path::local_path_problem(actions[k].path, platform) is None,
        crate::sync_preflight::source_problem_from(
            root,
            crate::text::split(actions[k].path, '/'),
            actions[k].bytes,
            book,
            0,
        ) is None,
    decreases k - i,
{
    if i < k {
        all_sources_are_checked(root, actions, platform, book, i + 1, k);
    }
}

proof fn lemma_uploads(
    root: Seq<char>,
    there: bool,
    actions: Seq<ActionView>,
    mutations: Seq<(Seq<char>, PlannedMutation)>,
    book: Seq<(Seq<char>, Node)>,
    i: int,
    k: int,
)
    requires
        0 <= i <= k < actions.len(),
        actions[k].kind is UploadFile,
        crate::sync_preflight::uploads_problem_from(
            root,
            there,
            actions,
            mutations,
            book,
            i,
        ) is None,
    ensures
        there ==> crate::sync_preflight::upload_problem(
            root,
            actions[k].path,
            mutations,
            book,
        ) is None,
        !there ==> crate::sync_preflight::fresh_upload_problem(
            actions[k].path,
            crate::sync_preflight::planned_at(mutations, actions[k].path),
        ) is None,
    decreases k - i,
{
    if i < k {
        lemma_uploads(root, there, actions, mutations, book, i + 1, k);
    }
}

proof fn lemma_first_delete(actions: Seq<ActionView>, i: int)
    requires
        0 <= i <= actions.len(),
    ensures
        match crate::sync_preflight::first_delete_from(actions, i) {
            Some(path) => exists|k: int|
                i <= k < actions.len() && (#[trigger] actions[k]).path == path && (
                actions[k].kind is DeleteRemoteFile || actions[k].kind is DeleteRemoteDirectory),
            None => forall|k: int|
                i <= k < actions.len() ==> !((#[trigger] actions[k]).kind is DeleteRemoteFile)
                    && !(actions[k].kind is DeleteRemoteDirectory),
        },
    decreases actions.len() - i,
{
    if i < actions.len() {
        lemma_first_delete(actions, i + 1);
    }
}

/// A plan that is let through has been checked at every upload. Where its root is
/// not there it removes nothing.
pub proof fn all_uploads_are_checked(
    root: Seq<char>,
    actions: Seq<ActionView>,
    book: Seq<(Seq<char>, Node)>,
    k: int,
)
    requires
        crate::sync_preflight::atomic_problem(root, actions, book) is None,
        0 <= k < actions.len(),
    ensures
        match (
            crate::sync_preflight::planned_mutations(actions),
            crate::sync_preflight::root_there(root, book),
        ) {
            (Ok(mutations), Ok(true)) => actions[k].kind is UploadFile
                ==> crate::sync_preflight::upload_problem(
                root,
                actions[k].path,
                mutations,
                book,
            ) is None,
            (Ok(mutations), Ok(false)) => {
                &&& !(actions[k].kind is DeleteRemoteFile)
                &&& !(actions[k].kind is DeleteRemoteDirectory)
                &&& actions[k].kind is UploadFile ==> crate::sync_preflight::fresh_upload_problem(
                    actions[k].path,
                    crate::sync_preflight::planned_at(mutations, actions[k].path),
                ) is None
            },
            _ => false,
        },
{
    lemma_first_delete(actions, 0);
    let mutations = crate::sync_preflight::planned_mutations(actions)->Ok_0;
    let there = crate::sync_preflight::root_there(root, book)->Ok_0;
    if actions[k].kind is UploadFile {
        lemma_uploads(root, there, actions, mutations, book, 0, k);
    }
}

/// A root is there where each step to it is a directory, and is not where the
/// first step that is none is missing. It is refused where that is a link or
/// anything else, or where it goes up.
pub proof fn roots_are_reached_by_directories(
    root: Seq<char>,
    steps: Seq<Seq<char>>,
    climbs: bool,
    book: Seq<(Seq<char>, Node)>,
    i: int,
) -> (k: int)
    requires
        0 <= i <= steps.len(),
    ensures
        i <= k <= steps.len(),
        forall|j: int|
            i <= j < k ==> crate::text_map::lookup(book, #[trigger] steps[j]) == Some(
                Node::Directory,
            ),
        match crate::sync_preflight::root_there_from(root, steps, climbs, book, i) {
            Ok(true) => k == steps.len() && !climbs,
            Ok(false) => k < steps.len() && crate::text_map::lookup(book, steps[k]) == Some(
                Node::Missing,
            ),
            Err(e) => {
                ||| k == steps.len() && climbs && e.problem == SyncProblem::RootTraversal
                ||| k < steps.len() && e.subject == steps[k] && match crate::text_map::lookup(
                    book,
                    steps[k],
                ) {
                    None => e.problem == SyncProblem::NeedNode,
                    Some(Node::Link) => e.problem == SyncProblem::RootIsLink,
                    Some(Node::Directory) => false,
                    Some(Node::Missing) => false,
                    Some(_) => e.problem == SyncProblem::RootNotDirectory,
                }
            },
        },
    decreases steps.len() - i,
{
    if i < steps.len() && crate::text_map::lookup(book, steps[i]) == Some(Node::Directory) {
        roots_are_reached_by_directories(root, steps, climbs, book, i + 1)
    } else {
        i
    }
}

/// An action is carried out on its path below the root, as what it is; an upload
/// comes from the same path below the local root.
pub proof fn actions_are_carried_out_below_the_roots(
    local_root: Seq<char>,
    remote_root: Seq<char>,
    action: ActionView,
)
    ensures
        ({
            let place = crate::remote_path::under_root(remote_root, action.path);
            crate::sync_apply::step_of(local_root, remote_root, action) == (match action.kind {
                SyncActionKind::DeleteRemoteFile => StepView::RemoveFile(place),
                SyncActionKind::DeleteRemoteDirectory => StepView::RemoveDirectory(place),
                SyncActionKind::CreateRemoteDirectory => StepView::MakeDirectory(place),
                SyncActionKind::UploadFile => StepView::Upload {
                    local: crate::paths::path_join(local_root, action.path),
                    remote: place,
                },
            })
        }),
{
}

proof fn lemma_steps(
    local_root: Seq<char>,
    remote_root: Seq<char>,
    actions: Seq<ActionView>,
    sends: bool,
    n: int,
)
    requires
        0 <= n <= actions.len(),
    ensures
        crate::sync_apply::steps_before(local_root, remote_root, actions, sends, n)
            == actions.take(n).filter(
            |a: ActionView| (a.kind is UploadFile) == sends,
        ).map_values(|a: ActionView| crate::sync_apply::step_of(local_root, remote_root, a)),
    decreases n,
{
    reveal(Seq::filter);
    let f = |a: ActionView| (a.kind is UploadFile) == sends;
    let g = |a: ActionView| crate::sync_apply::step_of(local_root, remote_root, a);
    let front = actions.take(n);
    if n > 0 {
        lemma_steps(local_root, remote_root, actions, sends, n - 1);
        assert(front.drop_last() =~= actions.take(n - 1));
        assert(front.last() == actions[n - 1]);
        let before = actions.take(n - 1).filter(f);
        if f(actions[n - 1]) {
            assert(before.push(actions[n - 1]).map_values(g) =~= before.map_values(g).push(
                g(actions[n - 1]),
            ));
        }
    } else {
        assert(front.filter(f).map_values(g) =~= Seq::empty());
    }
}

/// All actions of a plan are carried out, each once: in their order those that
/// are no uploads, and then the uploads in theirs.
pub proof fn all_actions_are_carried_out(
    local_root: Seq<char>,
    remote_root: Seq<char>,
    actions: Seq<ActionView>,
)
    ensures
        crate::sync_apply::all_steps(local_root, remote_root, actions) == (actions.filter(
            |a: ActionView| (a.kind is UploadFile) == false,
        ) + actions.filter(|a: ActionView| (a.kind is UploadFile) == true)).map_values(
            |a: ActionView| crate::sync_apply::step_of(local_root, remote_root, a),
        ),
{
    let n = actions.len() as int;
    lemma_steps(local_root, remote_root, actions, false, n);
    lemma_steps(local_root, remote_root, actions, true, n);
    assert(actions.take(n) =~= actions);
    let g = |a: ActionView| crate::sync_apply::step_of(local_root, remote_root, a);
    let x = actions.filter(|a: ActionView| (a.kind is UploadFile) == false);
    let y = actions.filter(|a: ActionView| (a.kind is UploadFile) == true);
    assert((x + y).map_values(g) =~= x.map_values(g) + y.map_values(g));
}

/// A plan is accepted exactly where all its paths stay below their root.
pub proof fn accepted_plans_stay_below(actions: Seq<ActionView>, platform: LocalPaths, i: int)
    requires
        0 <= i <= actions.len(),
    ensures
        crate::sync::plan_problem_from(actions, platform, i) is None == forall|k: int|
            i <= k < actions.len() ==> crate::remote_path::local_path_problem(
                (#[trigger] actions[k]).path,
                platform,
            ) is None,
    decreases actions.len() - i,
{
    if i < actions.len() {
        accepted_plans_stay_below(actions, platform, i + 1);
    }
}

/// What is wrong with a path is told: that it is empty, that it begins at a root,
/// that it holds a NUL.
pub proof fn refused_paths_tell_why(path: Seq<char>)
    ensures
        path.len() == 0 ==> crate::remote_path::relative_path_problem(path) == Some(
            RemotePathProblem::EmptyPath,
        ),
        crate::remote_path::relative_path_problem(seq!['/'] + path) == Some(
            RemotePathProblem::NotRelative,
        ),
        crate::remote_path::relative_path_problem(seq!['\\'] + path) == Some(
            RemotePathProblem::NotRelative,
        ),
        path.len() > 0 && path[0] != '/' && path[0] != '\\' && path.contains('\0')
            ==> crate::remote_path::relative_path_problem(path) == Some(RemotePathProblem::Nul),
{
}

} // verus!
