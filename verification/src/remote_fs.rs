//! What a server tells of its files.

use vstd::prelude::*;
use vstd::string::*;

use crate::model::copy_option;
use crate::text::chars_of;
use crate::text::contains_char;
use crate::text::joined;
use crate::text::joined3;
use crate::text::less_text;
use crate::text::same_text;

verus! {

#[derive(Debug, Clone, Copy, PartialEq, Eq, Structural)]
pub enum RemoteFileType {
    Directory,
    File,
    Symlink,
    Other,
}

#[derive(Debug, Clone, PartialEq, Eq)]
pub struct RemoteFileMetadata {
    pub file_type: RemoteFileType,
    pub size: Option<u64>,
    pub uid: Option<u32>,
    pub user: Option<String>,
    pub gid: Option<u32>,
    pub group: Option<String>,
    pub permissions: Option<u32>,
    pub accessed_at: Option<u32>,
    pub modified_at: Option<u32>,
}

#[verifier::ext_equal]
pub struct MetadataView {
    pub file_type: RemoteFileType,
    pub size: Option<u64>,
    pub uid: Option<u32>,
    pub user: Option<Seq<char>>,
    pub gid: Option<u32>,
    pub group: Option<Seq<char>>,
    pub permissions: Option<u32>,
    pub accessed_at: Option<u32>,
    pub modified_at: Option<u32>,
}

impl View for RemoteFileMetadata {
    type V = MetadataView;

    open spec fn view(&self) -> MetadataView {
        MetadataView {
            file_type: self.file_type,
            size: self.size,
            uid: self.uid,
            user: crate::model::option_view(self.user),
            gid: self.gid,
            group: crate::model::option_view(self.group),
            permissions: self.permissions,
            accessed_at: self.accessed_at,
            modified_at: self.modified_at,
        }
    }
}

#[derive(Debug, Clone, PartialEq, Eq)]
pub struct RemoteDirEntry {
    pub name: String,
    pub path: String,
    pub metadata: RemoteFileMetadata,
}

#[verifier::ext_equal]
pub struct DirEntryView {
    pub name: Seq<char>,
    pub path: Seq<char>,
    pub metadata: MetadataView,
}

impl View for RemoteDirEntry {
    type V = DirEntryView;

    open spec fn view(&self) -> DirEntryView {
        DirEntryView { name: self.name@, path: self.path@, metadata: self.metadata@ }
    }
}

pub open spec fn entry_views(entries: Seq<RemoteDirEntry>) -> Seq<DirEntryView> {
    entries.map_values(|e: RemoteDirEntry| e@)
}

#[derive(Debug, Clone, PartialEq, Eq)]
pub struct RemoteFileStat {
    pub path: String,
    pub metadata: RemoteFileMetadata,
    pub symlink_target: Option<String>,
}

/// The bits of a mode that tell the type of a file.
pub open spec fn type_bits(mode: u32) -> u32 {
    mode & 0xF000
}

/// The type of file that a mode stands for.
pub open spec fn type_of_mode(mode: u32) -> RemoteFileType {
    if type_bits(mode) == 0x4000 {
        RemoteFileType::Directory
    } else if type_bits(mode) == 0xA000 {
        RemoteFileType::Symlink
    } else if type_bits(mode) == 0x8000 {
        RemoteFileType::File
    } else {
        RemoteFileType::Other
    }
}

/// `russh_sftp::protocol::FileType::from` takes the four type bits of a mode
/// and tells directories, symbolic links and regular files from all else.
#[verifier::external_body]
pub(crate) fn sftp_file_type(mode: u32) -> (r: RemoteFileType)
    ensures
        r == type_of_mode(mode),
{
    match russh_sftp::protocol::FileType::from(mode) {
        russh_sftp::protocol::FileType::Dir => RemoteFileType::Directory,
        russh_sftp::protocol::FileType::File => RemoteFileType::File,
        russh_sftp::protocol::FileType::Symlink => RemoteFileType::Symlink,
        russh_sftp::protocol::FileType::Other => RemoteFileType::Other,
    }
}

/// The type of a file by its permissions; without them nothing is known.
pub fn file_type_of(permissions: Option<u32>) -> (r: RemoteFileType)
    ensures
        r == (match permissions {
            Some(mode) => type_of_mode(mode),
            None => RemoteFileType::Other,
        }),
{
    match permissions {
        Some(mode) => sftp_file_type(mode),
        None => RemoteFileType::Other,
    }
}

/// A server gave a name for a directory entry that is not one.
#[derive(Debug, Clone, Copy, PartialEq, Eq, Structural)]
pub enum EntryNameProblem {
    NoName,
    HoldsPath,
}

pub open spec fn is_dots(name: Seq<char>) -> bool {
    name == "."@ || name == ".."@
}

pub open spec fn entry_name_problem(name: Seq<char>) -> Option<EntryNameProblem> {
    if name.len() == 0 || is_dots(name) {
        Some(EntryNameProblem::NoName)
    } else if name.contains('/') || name.contains('\0') {
        Some(EntryNameProblem::HoldsPath)
    } else {
        None
    }
}

pub fn validate_remote_entry_name(name: &str) -> (r: Result<(), EntryNameProblem>)
    ensures
        match r {
            Ok(()) => entry_name_problem(name@) is None,
            Err(e) => entry_name_problem(name@) == Some(e),
        },
{
    if name.is_empty() || same_text(name, ".") || same_text(name, "..") {
        return Err(EntryNameProblem::NoName);
    }
    if contains_char(name, '/') || contains_char(name, '\0') {
        return Err(EntryNameProblem::HoldsPath);
    }
    Ok(())
}

/// The path of an entry of a directory.
pub open spec fn child_path(parent: Seq<char>, name: Seq<char>) -> Seq<char> {
    if parent.len() > 0 && parent.last() == '/' {
        parent + name
    } else {
        parent + seq!['/'] + name
    }
}

pub fn join_remote_child(parent: &str, name: &str) -> (r: String)
    ensures
        r@ == child_path(parent@, name@),
{
    let chars = chars_of(parent);
    if chars.len() > 0 && chars[chars.len() - 1] == '/' {
        return joined(parent, name);
    }
    proof {
        reveal_strlit("/");
        assert("/"@ =~= seq!['/']);
    }
    joined3(parent, "/", name)
}

/// An entry of a directory as a server lists it.
#[derive(Debug, PartialEq, Eq)]
pub struct ListedEntry {
    pub name: String,
    pub metadata: RemoteFileMetadata,
}

/// The entries of a listing without those for the directory and its parent.
pub open spec fn real_entries(path: Seq<char>, listed: Seq<ListedEntry>) -> Seq<DirEntryView>
    decreases listed.len(),
{
    if listed.len() == 0 {
        Seq::empty()
    } else if is_dots(listed.last().name@) {
        real_entries(path, listed.drop_last())
    } else {
        real_entries(path, listed.drop_last()).push(
            DirEntryView {
                name: listed.last().name@,
                path: child_path(path, listed.last().name@),
                metadata: listed.last().metadata@,
            },
        )
    }
}

/// The first problem with a name from index `i` on.
pub open spec fn listing_problem(listed: Seq<ListedEntry>, i: int) -> Option<EntryNameProblem>
    decreases listed.len() - i,
{
    if i < 0 || i >= listed.len() {
        None
    } else if !is_dots(listed[i].name@) && entry_name_problem(listed[i].name@) is Some {
        entry_name_problem(listed[i].name@)
    } else {
        listing_problem(listed, i + 1)
    }
}

/// The entries stand in the order of their names.
pub open spec fn by_name(entries: Seq<DirEntryView>) -> bool {
    forall|i: int, j: int|
        0 <= i < j < entries.len() ==> !crate::text::text_less(
            #[trigger] entries[j].name,
            #[trigger] entries[i].name,
        )
}

pub fn copy_metadata(m: &RemoteFileMetadata) -> (r: RemoteFileMetadata)
    ensures
        r@ == m@,
{
    RemoteFileMetadata {
        file_type: m.file_type,
        size: m.size,
        uid: m.uid,
        user: copy_option(&m.user),
        gid: m.gid,
        group: copy_option(&m.group),
        permissions: m.permissions,
        accessed_at: m.accessed_at,
        modified_at: m.modified_at,
    }
}

fn insert_by_name(entries: &mut Vec<RemoteDirEntry>, entry: RemoteDirEntry)
    requires
        by_name(entry_views(old(entries)@)),
    ensures
        by_name(entry_views(final(entries)@)),
        entry_views(final(entries)@).to_multiset() == entry_views(
            old(entries)@,
        ).to_multiset().insert(entry@),
{
    let ghost before = entry_views(entries@);
    let mut p: usize = entries.len();
    while p > 0 && less_text(entry.name.as_str(), entries[p - 1].name.as_str())
        invariant
            before == entry_views(entries@),
            entries@ == old(entries)@,
            by_name(before),
            p <= entries@.len(),
            forall|k: int|
                p <= k < before.len() ==> crate::text::text_less(
                    entry@.name,
                    #[trigger] before[k].name,
                ),
        decreases p,
    {
        assert(before[p - 1].name == entries@[p - 1].name@);
        p -= 1;
    }
    let ghost view = entry@;
    if p > 0 {
        assert(before[p - 1].name == entries@[p - 1].name@);
    }
    entries.insert(p, entry);
    proof {
        let after = entry_views(entries@);
        assert(after =~= before.insert(p as int, view));
        vstd::seq_lib::to_multiset_insert(before, p as int, view);
        assert forall|i: int, j: int| 0 <= i < j < after.len() implies !crate::text::text_less(
            #[trigger] after[j].name,
            #[trigger] after[i].name,
        ) by {
            if j == p {
                // Every name before the new one is not behind it.
                assert(after[i] == before[i]);
                if crate::text::text_less(view.name, before[i].name) {
                    if i < p - 1 {
                        let last = before[p - 1].name;
                        assert(!crate::text::text_less(last, before[i].name));
                        crate::text::lemma_text_less_total(before[i].name, last);
                        if before[i].name != last {
                            crate::text::lemma_text_less_transitive(
                                view.name,
                                before[i].name,
                                last,
                            );
                        }
                    }
                }
            } else if i == p {
                assert(after[j] == before[j - 1]);
                let other = before[j - 1].name;
                assert(crate::text::text_less(view.name, other));
                if crate::text::text_less(other, view.name) {
                    crate::text::lemma_text_less_transitive(other, view.name, other);
                    crate::text::lemma_text_less_irreflexive(other);
                }
            } else {
                let oi = if i < p {
                    i
                } else {
                    i - 1
                };
                let oj = if j < p {
                    j
                } else {
                    j - 1
                };
                assert(after[i] == before[oi]);
                assert(after[j] == before[oj]);
            }
        }
    }
}

/// The entries of a directory listing in the order of their names. A name that
/// is not that of a single entry is refused.
pub fn list_entries(path: &str, listed: &Vec<ListedEntry>) -> (r: Result<
    Vec<RemoteDirEntry>,
    EntryNameProblem,
>)
    ensures
        match r {
            Ok(entries) => {
                &&& listing_problem(listed@, 0) is None
                &&& by_name(entry_views(entries@))
                &&& entry_views(entries@).to_multiset() == real_entries(
                    path@,
                    listed@,
                ).to_multiset()
            },
            Err(e) => listing_problem(listed@, 0) == Some(e),
        },
{
    let mut entries: Vec<RemoteDirEntry> = Vec::new();
    let mut i: usize = 0;
    assert(listed@.take(0) =~= Seq::<ListedEntry>::empty());
    assert(entry_views(entries@) =~= Seq::<DirEntryView>::empty());
    while i < listed.len()
        invariant
            i <= listed@.len(),
            listing_problem(listed@, 0) == listing_problem(listed@, i as int),
            by_name(entry_views(entries@)),
            entry_views(entries@).to_multiset() == real_entries(
                path@,
                listed@.take(i as int),
            ).to_multiset(),
        decreases listed@.len() - i,
    {
        let name = listed[i].name.as_str();
        let ghost head = listed@.take(i + 1);
        assert(head.drop_last() =~= listed@.take(i as int));
        assert(head.last() == listed@[i as int]);
        if !(same_text(name, ".") || same_text(name, "..")) {
            validate_remote_entry_name(name)?;
            let entry = RemoteDirEntry {
                name: name.to_owned(),
                path: join_remote_child(path, name),
                metadata: copy_metadata(&listed[i].metadata),
            };
            proof {
                vstd::seq_lib::to_multiset_build(
                    real_entries(path@, listed@.take(i as int)),
                    entry@,
                );
            }
            insert_by_name(&mut entries, entry);
        }
        i += 1;
    }
    assert(listed@.take(i as int) =~= listed@);
    Ok(entries)
}

} // verus!
