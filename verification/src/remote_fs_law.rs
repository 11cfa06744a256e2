//! Laws of directory listings: what an entry is, what it may be called, and
//! which entries are listed.

use vstd::prelude::*;

use crate::remote_fs::DirEntryView;
use crate::remote_fs::EntryNameProblem;
use crate::remote_fs::ListedEntry;
use crate::remote_fs::RemoteFileType;

verus! {

/// The four bits above the permissions say what an entry is: four is a
/// directory, eight a file and ten a link.
pub proof fn modes_tell_the_type(mode: u32)
    ensures
        ({
            let kind = mode / 4096 % 16;
            let found = crate::remote_fs::type_of_mode(mode);
            &&& (kind == 4) == (found == RemoteFileType::Directory)
            &&& (kind == 8) == (found == RemoteFileType::File)
            &&& (kind == 10) == (found == RemoteFileType::Symlink)
        }),
{
    assert(mode & 0xF000 == mode / 4096 % 16 * 4096) by (bit_vector);
}

/// A name is proper where it is not empty, is not one or two dots, and holds
/// neither a slash nor a zero character.
pub proof fn proper_names_hold_no_path(name: Seq<char>)
    ensures
        crate::remote_fs::entry_name_problem(name) is None == (name.len() > 0 && name != seq!['.']
            && name != seq!['.', '.'] && !name.contains('/') && !name.contains('\0')),
        crate::remote_fs::entry_name_problem(name) == Some(EntryNameProblem::NoName) <==> name.len()
            == 0 || name == seq!['.'] || name == seq!['.', '.'],
{
    lemma_dots(name);
}

proof fn lemma_dots(name: Seq<char>)
    ensures
        crate::remote_fs::is_dots(name) == (name == seq!['.'] || name == seq!['.', '.']),
{
    reveal_strlit(".");
    reveal_strlit("..");
    assert("."@ =~= seq!['.']);
    assert(".."@ =~= seq!['.', '.']);
}

/// An entry of a directory is its path, one slash and the name, whether or not
/// the path ends with a slash.
pub proof fn children_stand_below_one_slash(parent: Seq<char>, name: Seq<char>)
    requires
        parent.len() > 0 ==> parent.last() != '/',
    ensures
        crate::remote_fs::child_path(parent, name) == parent + seq!['/'] + name,
        crate::remote_fs::child_path(parent + seq!['/'], name) == parent + seq!['/'] + name,
{
}

/// All entries are listed but for the directory itself and the one above it,
/// each with its path and what was told of it.
pub proof fn listings_leave_out_dots_alone(path: Seq<char>, listed: Seq<ListedEntry>)
    ensures
        crate::remote_fs::real_entries(path, listed) == listed.filter(
            |e: ListedEntry| e.name@ != seq!['.'] && e.name@ != seq!['.', '.'],
        ).map_values(
            |e: ListedEntry|
                DirEntryView {
                    name: e.name@,
                    path: crate::remote_fs::child_path(path, e.name@),
                    metadata: e.metadata@,
                },
        ),
    decreases listed.len(),
{
    reveal(Seq::filter);
    let keep = |e: ListedEntry| e.name@ != seq!['.'] && e.name@ != seq!['.', '.'];
    let make = |e: ListedEntry|
        DirEntryView {
            name: e.name@,
            path: crate::remote_fs::child_path(path, e.name@),
            metadata: e.metadata@,
        };
    if listed.len() > 0 {
        listings_leave_out_dots_alone(path, listed.drop_last());
        lemma_dots(listed.last().name@);
        let before = listed.drop_last().filter(keep);
        if keep(listed.last()) {
            assert(before.push(listed.last()).map_values(make) =~= before.map_values(make).push(
                make(listed.last()),
            ));
        }
    } else {
        assert(listed.filter(keep).map_values(make) =~= Seq::empty());
    }
}

/// A listing is refused exactly where an entry other than those two has no
/// proper name; the first such entry tells why.
pub proof fn refused_listings_have_a_bad_name(listed: Seq<ListedEntry>, i: int)
    requires
        0 <= i <= listed.len(),
    ensures
        crate::remote_fs::listing_problem(listed, i) is None == forall|k: int|
            i <= k < listed.len() ==> {
                let name = (#[trigger] listed[k]).name@;
                name == seq!['.'] || name == seq!['.', '.'] || name.len() > 0 && !name.contains('/')
                    && !name.contains('\0')
            },
        crate::remote_fs::listing_problem(listed, i) == Some(EntryNameProblem::NoName)
            ==> exists|k: int| i <= k < listed.len() && (#[trigger] listed[k]).name@.len() == 0,
        crate::remote_fs::listing_problem(listed, i) == Some(EntryNameProblem::HoldsPath)
            ==> exists|k: int|
            i <= k < listed.len() && ((#[trigger] listed[k]).name@.contains('/')
                || listed[k].name@.contains('\0')),
    decreases listed.len() - i,
{
    if i < listed.len() {
        refused_listings_have_a_bad_name(listed, i + 1);
        lemma_dots(listed[i].name@);
        proper_names_hold_no_path(listed[i].name@);
    }
}

} // verus!
