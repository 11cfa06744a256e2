//! Laws of removing and renaming on the other side: which paths name an entry,
//! which directory it is in, and what a plan to remove a tree holds.

use vstd::prelude::*;

use crate::remote_fs::DirEntryView;
use crate::remote_fs::RemoteFileType;
use crate::remote_mutation::DeleteEntryView;
use crate::remote_mutation::DeletePlanView;
use crate::remote_mutation::MutationProblem;
use crate::remote_mutation::Removal;

verus! {

/// A name of one entry: not empty, without a slash or a control character, and
/// neither one dot nor two.
pub open spec fn is_name(name: Seq<char>) -> bool {
    &&& name.len() > 0 && name != seq!['.'] && name != seq!['.', '.']
    &&& forall|i: int|
        0 <= i < name.len() ==> #[trigger] name[i] != '/' && !crate::text::is_control(name[i])
}

proof fn lemma_literals()
    ensures
        "."@ == seq!['.'],
        ".."@ == seq!['.', '.'],
        "/"@ == seq!['/'],
        "./"@ == seq!['.', '/'],
{
    reveal_strlit(".");
    reveal_strlit("..");
    reveal_strlit("/");
    reveal_strlit("./");
    assert("."@ =~= seq!['.']);
    assert(".."@ =~= seq!['.', '.']);
    assert("/"@ =~= seq!['/']);
    assert("./"@ =~= seq!['.', '/']);
}

/// A name alone names an entry, below the root and below the directory where
/// one stands as well.
pub proof fn names_name_an_entry(name: Seq<char>)
    requires
        is_name(name),
    ensures
        crate::remote_mutation::mutation_path_problem(name) is None,
        crate::remote_mutation::mutation_path_problem(seq!['/'] + name) is None,
        crate::remote_mutation::mutation_path_problem(seq!['.', '/'] + name) is None,
{
    lemma_literals();
    if name.contains('/') {
        let i = choose|i: int| 0 <= i < name.len() && name[i] == '/';
        assert(name[i] != '/');
    }
    crate::text_law::plain_text_is_one_part(name, '/');
    let parts = seq![name];
    assert(!crate::remote_mutation::has_ambiguous(parts)) by {
        if crate::remote_mutation::has_ambiguous(parts) {
            let i = choose|i: int|
                0 <= i < parts.len() && crate::remote_mutation::is_ambiguous(#[trigger] parts[i]);
            assert(parts[i] == name);
        }
    }
    let rooted = seq!['/'] + name;
    let here = seq!['.', '/'] + name;
    assert(rooted.skip(1) =~= name);
    assert(here.skip(2) =~= name);
    assert(seq!['.', '/'].is_prefix_of(here)) by {
        assert(here.subrange(0, 2) =~= seq!['.', '/']);
    }
    assert(name[0] != '/');
    assert(!seq!['.', '/'].is_prefix_of(name)) by {
        if seq!['.', '/'].is_prefix_of(name) {
            assert(name[1] == '/');
        }
    }
    assert(!seq!['.', '/'].is_prefix_of(rooted)) by {
        if seq!['.', '/'].is_prefix_of(rooted) {
            assert(rooted[0] == '.');
        }
    }
    assert(rooted.len() > 1 && here.len() > 2);
    assert(name.last() != '/');
    lemma_no_control(name);
    assert forall|i: int| 0 <= i < rooted.len() implies !crate::text::is_control(
        #[trigger] rooted[i],
    ) by {
        if i > 0 {
            assert(rooted[i] == name[i - 1]);
        }
    }
    assert forall|i: int| 0 <= i < here.len() implies !crate::text::is_control(
        #[trigger] here[i],
    ) by {
        if i > 1 {
            assert(here[i] == name[i - 2]);
        }
    }
}

proof fn lemma_no_control(name: Seq<char>)
    requires
        forall|i: int| 0 <= i < name.len() ==> !crate::text::is_control(#[trigger] name[i]),
    ensures
        !crate::model::has_control(name),
{
}

/// One name more below a path that names an entry names an entry, and what is no
/// name does not.
pub proof fn entries_are_named_step_by_step(path: Seq<char>, name: Seq<char>)
    requires
        crate::remote_mutation::mutation_path_problem(path) is None,
    ensures
        !name.contains('/') ==> (crate::remote_mutation::mutation_path_problem(
            path + seq!['/'] + name,
        ) is None) == is_name(name),
{
    lemma_literals();
    let all = path + seq!['/'] + name;
    let body = crate::remote_mutation::path_body(path);
    let longer = crate::remote_mutation::path_body(all);
    if !name.contains('/') {
        assert(longer =~= body + seq!['/'] + name) by {
            assert(path.len() > 0);
            assert(all[0] == path[0]);
            if seq!['.', '/'].is_prefix_of(path) {
                assert(all.subrange(0, 2) =~= path.subrange(0, 2));
                assert(seq!['.', '/'].is_prefix_of(all));
                assert(all.skip(2) =~= path.skip(2) + seq!['/'] + name);
            } else {
                if seq!['.', '/'].is_prefix_of(all) {
                    assert(all[0] == '.' && all[1] == '/');
                    if path.len() >= 2 {
                        assert(path.subrange(0, 2) =~= seq!['.', '/']);
                    } else {
                        assert(path =~= seq!['.']);
                    }
                }
                if path[0] == '/' {
                    assert(all.skip(1) =~= path.skip(1) + seq!['/'] + name);
                }
            }
        }
        crate::text_law::splitting_undoes_joining(body, name, '/');
        crate::text_law::plain_text_is_one_part(name, '/');
        let parts = crate::text::split(body, '/');
        let more = parts + seq![name];
        assert(crate::remote_mutation::has_ambiguous(more) == (
        crate::remote_mutation::has_ambiguous(parts) || crate::remote_mutation::is_ambiguous(
            name,
        ))) by {
            assert(more[parts.len() as int] == name);
            assert forall|i: int| 0 <= i < parts.len() implies more[i] == #[trigger] parts[i] by {}
            if crate::remote_mutation::has_ambiguous(parts) {
                let i = choose|i: int|
                    0 <= i < parts.len() && crate::remote_mutation::is_ambiguous(
                        #[trigger] parts[i],
                    );
                assert(crate::remote_mutation::is_ambiguous(more[i]));
            }
            if crate::remote_mutation::has_ambiguous(more) {
                let i = choose|i: int|
                    0 <= i < more.len() && crate::remote_mutation::is_ambiguous(#[trigger] more[i]);
                if i < parts.len() {
                    assert(crate::remote_mutation::is_ambiguous(parts[i]));
                }
            }
        }
        assert(all.len() >= 2);
        if name.len() > 0 {
            assert(longer.last() == name.last());
            assert(name[name.len() - 1] == name.last());
        } else {
            assert(longer.last() == '/');
        }
        assert(crate::model::has_control(all) == exists|i: int|
            0 <= i < name.len() && crate::text::is_control(#[trigger] name[i])) by {
            if crate::model::has_control(all) {
                let i = choose|i: int| 0 <= i < all.len() && crate::text::is_control(
                    #[trigger] all[i],
                );
                if i < path.len() {
                    assert(crate::text::is_control(path[i]));
                } else if i > path.len() {
                    assert(crate::text::is_control(name[i - path.len() - 1]));
                }
            }
            if exists|i: int| 0 <= i < name.len() && crate::text::is_control(#[trigger] name[i]) {
                let i = choose|i: int|
                    0 <= i < name.len() && crate::text::is_control(#[trigger] name[i]);
                assert(crate::text::is_control(all[path.len() + 1 + i]));
            }
        }
        if is_name(name) {
            assert(!crate::model::has_control(all));
        }
        assert forall|i: int| 0 <= i < name.len() implies #[trigger] name[i] != '/' by {}
    }
}

/// The directory of an entry is the path before its name: the root for an entry
/// of the root, and the directory where one stands for a name alone.
pub proof fn entries_are_in_their_directory(path: Seq<char>, name: Seq<char>)
    requires
        is_name(name),
        path.len() > 0,
    ensures
        crate::remote_mutation::parent_of(path + seq!['/'] + name) == path,
        crate::remote_mutation::parent_of(seq!['/'] + name) == seq!['/'],
        crate::remote_mutation::parent_of(name) == seq!['.'],
{
    lemma_literals();
    let all = path + seq!['/'] + name;
    let n = path.len() as int;
    crate::target::lemma_last_position(all, '/');
    assert(all[n] == '/');
    assert forall|i: int| n < i < all.len() implies #[trigger] all[i] != '/' by {
        assert(all[i] == name[i - n - 1]);
    }
    assert(all.take(n) =~= path);
    let rooted = seq!['/'] + name;
    crate::target::lemma_last_position(rooted, '/');
    assert(rooted[0] == '/');
    assert forall|i: int| 0 < i < rooted.len() implies #[trigger] rooted[i] != '/' by {
        assert(rooted[i] == name[i - 1]);
    }
    crate::target::lemma_last_position(name, '/');
}

/// A rename is accepted exactly where both paths name an entry, the entries
/// differ and are in one directory.
pub proof fn renames_stay_in_one_directory(source: Seq<char>, destination: Seq<char>)
    ensures
        crate::remote_mutation::rename_problem(source, destination) is None == {
            &&& crate::remote_mutation::mutation_path_problem(source) is None
            &&& crate::remote_mutation::mutation_path_problem(destination) is None
            &&& source != destination
            &&& crate::remote_mutation::parent_of(source) == crate::remote_mutation::parent_of(
                destination,
            )
        },
{
}

/// A directory is removed as one where it is empty, and a file or a link as a
/// file. Nothing else is removed.
pub proof fn entries_are_removed_as_what_they_are(file_type: RemoteFileType, entries: nat)
    ensures
        ({
            let removal = crate::remote_mutation::removal_of(file_type, entries);
            &&& (removal == Ok::<Removal, MutationProblem>(Removal::RemoveDirectory)) == (file_type
                == RemoteFileType::Directory && entries == 0)
            &&& (removal == Ok::<Removal, MutationProblem>(Removal::RemoveFile)) == (file_type
                == RemoteFileType::File || file_type == RemoteFileType::Symlink)
            &&& (removal == Err::<Removal, MutationProblem>(MutationProblem::NotEmpty)) == (
            file_type == RemoteFileType::Directory && entries > 0)
        }),
{
}

/// Entries of one kind in a plan.
pub open spec fn of_kind(plan: DeletePlanView, kind: RemoteFileType) -> nat {
    plan.entries.filter(|e: DeleteEntryView| e.file_type == kind).len()
}

/// The counts of a plan are those of its entries.
pub open spec fn counts_by_kind(plan: DeletePlanView) -> bool {
    &&& plan.files == of_kind(plan, RemoteFileType::File)
    &&& plan.directories == of_kind(plan, RemoteFileType::Directory)
    &&& plan.symlinks == of_kind(plan, RemoteFileType::Symlink)
}

/// A plan begins with its root, and counts it.
pub proof fn plans_begin_with_their_root(root: Seq<char>)
    ensures
        ({
            let plan = crate::remote_mutation::root_plan(root);
            &&& plan.root == root && plan.entries.len() == 1
            &&& plan.entries[0].path == root && plan.entries[0].file_type
                == RemoteFileType::Directory
            &&& counts_by_kind(plan)
        }),
{
    let plan = crate::remote_mutation::root_plan(root);
    reveal_with_fuel(Seq::filter, 2);
    assert(plan.entries.drop_last() =~= Seq::empty());
}

/// A plan grows by the entry that comes, at its end, and counts it. It is refused
/// where it would hold more than it may, or where the entry is of no kind that
/// can be removed.
pub proof fn plans_grow_by_what_comes(
    plan: DeletePlanView,
    path: Seq<char>,
    file_type: RemoteFileType,
    max_entries: usize,
)
    requires
        counts_by_kind(plan),
    ensures
        match crate::remote_mutation::with_entry(plan, path, file_type, max_entries) {
            Ok(after) => {
                &&& file_type != RemoteFileType::Other && plan.entries.len() < max_entries
                &&& after.root == plan.root
                &&& after.entries == plan.entries.push(DeleteEntryView { path, file_type })
                &&& counts_by_kind(after)
            },
            Err(MutationProblem::UnsupportedType) => file_type == RemoteFileType::Other,
            Err(MutationProblem::BudgetExceeded) => plan.entries.len() >= max_entries,
            Err(MutationProblem::CounterOverflow) => plan.entries.len() >= u64::MAX,
            Err(_) => false,
        },
        file_type != RemoteFileType::Other && plan.entries.len() < max_entries
            && plan.entries.len() < u64::MAX ==> crate::remote_mutation::with_entry(
            plan,
            path,
            file_type,
            max_entries,
        ) is Ok,
{
    reveal(Seq::filter);
    let entry = DeleteEntryView { path, file_type };
    let more = plan.entries.push(entry);
    assert(more.drop_last() =~= plan.entries);
    plan.entries.lemma_filter_len(|e: DeleteEntryView| e.file_type == RemoteFileType::File);
    plan.entries.lemma_filter_len(|e: DeleteEntryView| e.file_type == RemoteFileType::Directory);
    plan.entries.lemma_filter_len(|e: DeleteEntryView| e.file_type == RemoteFileType::Symlink);
}

/// All entries of a directory come into the plan, in their order, and its
/// directories are to be looked at later.
pub proof fn directories_come_in_whole(
    plan: DeletePlanView,
    stack: Seq<Seq<char>>,
    entries: Seq<DirEntryView>,
    i: int,
    max_entries: usize,
)
    requires
        counts_by_kind(plan),
        0 <= i <= entries.len(),
    ensures
        crate::remote_mutation::with_entries(plan, stack, entries, i, max_entries) matches Ok(
            (after, next),
        ) ==> {
            &&& counts_by_kind(after)
            &&& after.entries.len() == plan.entries.len() + entries.len() - i
            &&& forall|k: int|
                0 <= k < plan.entries.len() ==> #[trigger] after.entries[k] == plan.entries[k]
            &&& forall|k: int|
                i <= k < entries.len() ==> after.entries[plan.entries.len() + k - i] == (
                DeleteEntryView {
                    path: (#[trigger] entries[k]).path,
                    file_type: entries[k].metadata.file_type,
                })
            &&& next == stack + entries.skip(i).filter(
                |e: DirEntryView| e.metadata.file_type == RemoteFileType::Directory,
            ).map_values(|e: DirEntryView| e.path)
        },
    decreases entries.len() - i,
{
    let is_dir = |e: DirEntryView| e.metadata.file_type == RemoteFileType::Directory;
    let path_of = |e: DirEntryView| e.path;
    let rest = entries.skip(i);
    if i < entries.len() {
        let entry = entries[i];
        let file_type = entry.metadata.file_type;
        plans_grow_by_what_comes(plan, entry.path, file_type, max_entries);
        crate::manager_law::lemma_filter_first(rest, is_dir);
        assert(rest.skip(1) =~= entries.skip(i + 1));
        match crate::remote_mutation::with_entry(plan, entry.path, file_type, max_entries) {
            Ok(grown) => {
                let deeper = if file_type is Directory {
                    stack.push(entry.path)
                } else {
                    stack
                };
                directories_come_in_whole(grown, deeper, entries, i + 1, max_entries);
                let tail = entries.skip(i + 1).filter(is_dir);
                if file_type is Directory {
                    assert((seq![entry] + tail).map_values(path_of) =~= seq![entry.path]
                        + tail.map_values(path_of));
                    assert(stack.push(entry.path) + tail.map_values(path_of) =~= stack + (
                    seq![entry.path] + tail.map_values(path_of)));
                }
                match crate::remote_mutation::with_entries(
                    grown,
                    deeper,
                    entries,
                    i + 1,
                    max_entries,
                ) {
                    Ok((after, next)) => {
                        let n = plan.entries.len() as int;
                        assert(after.entries[n] == grown.entries[n]);
                        assert forall|k: int| 0 <= k < n implies #[trigger] after.entries[k]
                            == plan.entries[k] by {
                            assert(after.entries[k] == grown.entries[k]);
                        }
                        assert forall|k: int| i <= k < entries.len() implies after.entries[n + k
                            - i] == (DeleteEntryView {
                            path: (#[trigger] entries[k]).path,
                            file_type: entries[k].metadata.file_type,
                        }) by {
                            if k > i {
                                assert(after.entries[grown.entries.len() + k - (i + 1)] == (
                                DeleteEntryView {
                                    path: entries[k].path,
                                    file_type: entries[k].metadata.file_type,
                                }));
                            }
                        }
                    },
                    Err(_) => {},
                }
            },
            Err(_) => {},
        }
    } else {
        reveal(Seq::filter);
        assert(rest =~= Seq::empty());
        assert(stack + rest.filter(is_dir).map_values(path_of) =~= stack);
    }
}

} // verus!
