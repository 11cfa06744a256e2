//! Laws of places on this side: where files of the program are, which of them
//! can be trusted, and when two paths are the same.

use vstd::prelude::*;

use crate::config_trust::AccessEntry;
use crate::config_trust::FileAccess;
use crate::config_trust::TrustProblem;
use crate::directories::DirectoryView;
use crate::directories::Platform;
use crate::endpoint::EndpointProblem;
use crate::endpoint::FileFacts;
use crate::endpoint::IoErrorKind;

verus! {

proof fn lemma_parts_join(parts: Seq<Seq<char>>, name: Seq<char>, i: int)
    requires
        0 <= i <= parts.len(),
        parts.len() > 0,
    ensures
        crate::paths::path_parts_from(parts.push(name), i) == (if name.len() == 0 || name == "."@ {
            crate::paths::path_parts_from(parts, i)
        } else {
            crate::paths::path_parts_from(parts, i).push(name)
        }),
    decreases parts.len() - i,
{
    let more = parts.push(name);
    if i < parts.len() {
        assert(more[i] == parts[i]);
        lemma_parts_join(parts, name, i + 1);
        let rest = crate::paths::path_parts_from(parts, i + 1);
        assert((seq![parts[i]] + rest).push(name) =~= seq![parts[i]] + rest.push(name));
    } else {
        assert(more[i] == name);
        assert(crate::paths::path_parts_from(more, i + 1) =~= Seq::empty());
        assert(seq![name] + Seq::empty() =~= Seq::empty().push(name));
    }
}

proof fn lemma_path_grows(path: Seq<char>, name: Seq<char>)
    requires
        !name.contains('/'),
        path.len() > 0,
    ensures
        crate::paths::path_parts(path + seq!['/'] + name) == (if name.len() == 0 || name == "."@ {
            crate::paths::path_parts(path)
        } else {
            crate::paths::path_parts(path).push(name)
        }),
        crate::paths::is_absolute(path + seq!['/'] + name) == crate::paths::is_absolute(path),
{
    crate::text_law::splitting_undoes_joining(path, name, '/');
    crate::text_law::plain_text_is_one_part(name, '/');
    crate::text_law::parts_hold_no_separator(path, '/');
    let parts = crate::text::split(path, '/');
    assert(parts + seq![name] =~= parts.push(name));
    lemma_parts_join(parts, name, 0);
    assert((path + seq!['/'] + name)[0] == path[0]);
}

/// Slashes at the end, and dots alone between slashes, do not count in a path.
pub proof fn paths_are_the_same_but_for_slashes(path: Seq<char>)
    requires
        path.len() > 0,
    ensures
        crate::paths::same_path(path + seq!['/'], path),
        crate::paths::same_path(path + seq!['/', '.'], path),
{
    let none = Seq::<char>::empty();
    lemma_path_grows(path, none);
    assert(path + seq!['/'] + none =~= path + seq!['/']);
    reveal_strlit(".");
    assert("."@ =~= seq!['.']);
    lemma_path_grows(path, seq!['.']);
    assert(path + seq!['/'] + seq!['.'] =~= path + seq!['/', '.']);
}

/// Two entries are the same exactly where their names are and the directories
/// that they are in.
pub proof fn paths_are_the_same_step_by_step(
    a: Seq<char>,
    b: Seq<char>,
    x: Seq<char>,
    y: Seq<char>,
)
    requires
        a.len() > 0,
        b.len() > 0,
        x.len() > 0,
        y.len() > 0,
        !x.contains('/'),
        !y.contains('/'),
        x != seq!['.'],
        y != seq!['.'],
    ensures
        crate::paths::same_path(a + seq!['/'] + x, b + seq!['/'] + y) == (crate::paths::same_path(
            a,
            b,
        ) && x == y),
{
    reveal_strlit(".");
    assert("."@ =~= seq!['.']);
    lemma_path_grows(a, x);
    lemma_path_grows(b, y);
    let p = crate::paths::path_parts(a);
    let q = crate::paths::path_parts(b);
    if p.push(x) == q.push(y) {
        assert(p.push(x).last() == x && q.push(y).last() == y);
        assert(p.push(x).drop_last() =~= p);
        assert(q.push(y).drop_last() =~= q);
    }
}

/// A path from the root is never the same as one that is not.
pub proof fn rooted_paths_are_apart(a: Seq<char>, b: Seq<char>)
    requires
        a.len() > 0,
        a[0] == '/',
        b.len() == 0 || b[0] != '/',
    ensures
        !crate::paths::same_path(a, b),
{
}

/// A dot at the beginning of a path counts: an entry of the directory that one is in
/// is told apart from the bare name.
pub proof fn dots_count_at_the_beginning(name: Seq<char>)
    requires
        name.len() > 0,
        !name.contains('/'),
        name != seq!['.'],
    ensures
        !crate::paths::same_path(seq!['.', '/'] + name, name),
{
    let dot = seq!['.'];
    lemma_path_grows(dot, name);
    assert(dot + seq!['/'] + name =~= seq!['.', '/'] + name);
    crate::text_law::plain_text_is_one_part(dot, '/');
    crate::text_law::plain_text_is_one_part(name, '/');
    reveal_with_fuel(crate::paths::path_parts_from, 3);
    let short = crate::paths::path_parts(dot);
    assert(short =~= seq![dot]);
    assert(crate::paths::path_parts(name) =~= seq![name]);
    assert(short.push(name).len() == 2);
}

/// An entry of a directory stands behind one separator: a slash, or on Windows a
/// backslash, unless the directory ends with one.
pub proof fn entries_stand_in_their_directory(directory: Seq<char>, name: Seq<char>)
    requires
        directory.len() > 2,
        name.len() > 0,
        name[0] != '/',
    ensures
        directory.last() != '/' ==> {
            &&& crate::directories::entry_path(directory, name, Platform::Unix) == directory
                + seq!['/'] + name
            &&& crate::directories::entry_path(directory, name, Platform::MacOs) == directory
                + seq!['/'] + name
        },
        directory.last() == '/' ==> crate::directories::entry_path(directory, name, Platform::Unix)
            == directory + name,
        directory.last() != '/' && directory.last() != '\\' ==> crate::directories::entry_path(
            directory,
            name,
            Platform::Windows,
        ) == directory + seq!['\\'] + name,
        directory.last() == '\\' ==> crate::directories::entry_path(
            directory,
            name,
            Platform::Windows,
        ) == directory + name,
{
}

proof fn lemma_entry(directory: Seq<char>, name: Seq<char>, platform: Platform)
    requires
        !(platform is Windows),
        directory.len() > 0,
        directory.last() != '/',
        name.len() > 0,
        name[0] != '/',
    ensures
        crate::directories::entry_path(directory, name, platform) == directory + seq!['/'] + name,
{
}

/// The library of a user lies below their configuration: where `XDG_CONFIG_HOME`
/// says, else in `.config` of their home.
pub proof fn libraries_lie_below_the_configuration(v: DirectoryView, base: Seq<char>)
    requires
        base.len() > 0,
        base.last() != '/',
    ensures
        v.xdg_config_home == Some(base) ==> crate::store::store_path(Platform::Unix, v) == Some(
            base + seq!['/'] + "kaduox-ssh"@ + seq!['/'] + "hosts.toml"@,
        ),
        v.xdg_config_home is None && v.home == Some(base) ==> crate::store::store_path(
            Platform::Unix,
            v,
        ) == Some(
            base + seq!['/'] + ".config"@ + seq!['/'] + "kaduox-ssh"@ + seq!['/'] + "hosts.toml"@,
        ),
        v.home == Some(base) ==> crate::store::store_path(Platform::MacOs, v) == Some(
            base + seq!['/'] + "Library"@ + seq!['/'] + "Application Support"@ + seq!['/']
                + "Kaduox-SSH"@ + seq!['/'] + "hosts.toml"@,
        ),
        v.home is None ==> crate::store::store_path(Platform::MacOs, v) is None,
        v.xdg_config_home is None && v.home is None ==> crate::store::store_path(
            Platform::Unix,
            v,
        ) is None,
{
    reveal_strlit("kaduox-ssh");
    reveal_strlit("hosts.toml");
    reveal_strlit(".config");
    reveal_strlit("Library");
    reveal_strlit("Application Support");
    reveal_strlit("Kaduox-SSH");
    lemma_entry(base, "kaduox-ssh"@, Platform::Unix);
    lemma_entry(base + seq!['/'] + "kaduox-ssh"@, "hosts.toml"@, Platform::Unix);
    let config = base + seq!['/'] + ".config"@;
    lemma_entry(base, ".config"@, Platform::Unix);
    lemma_entry(config, "kaduox-ssh"@, Platform::Unix);
    lemma_entry(config + seq!['/'] + "kaduox-ssh"@, "hosts.toml"@, Platform::Unix);
    let library = base + seq!['/'] + "Library"@;
    let support = library + seq!['/'] + "Application Support"@;
    lemma_entry(base, "Library"@, Platform::MacOs);
    lemma_entry(library, "Application Support"@, Platform::MacOs);
    lemma_entry(support, "Kaduox-SSH"@, Platform::MacOs);
    lemma_entry(support + seq!['/'] + "Kaduox-SSH"@, "hosts.toml"@, Platform::MacOs);
}

/// The socket of the daemon lies in the runtime directory where there is one,
/// else in the cache of the user.
pub proof fn sockets_lie_in_the_runtime_directory(v: DirectoryView, base: Seq<char>)
    requires
        base.len() > 0,
        base.last() != '/',
    ensures
        v.xdg_runtime_dir == Some(base) ==> crate::endpoint::endpoint_path(Platform::Unix, v)
            == Some(base + seq!['/'] + "kaduox-ssh"@ + seq!['/'] + "daemon.sock"@),
        v.xdg_runtime_dir is None && v.home == Some(base) ==> crate::endpoint::endpoint_path(
            Platform::Unix,
            v,
        ) == Some(
            base + seq!['/'] + ".cache"@ + seq!['/'] + "kaduox-ssh"@ + seq!['/'] + "daemon.sock"@,
        ),
        v.xdg_runtime_dir is None && v.home == Some(base) ==> crate::endpoint::endpoint_path(
            Platform::MacOs,
            v,
        ) == Some(
            base + seq!['/'] + "Library"@ + seq!['/'] + "Caches"@ + seq!['/'] + "Kaduox-SSH"@
                + seq!['/'] + "daemon.sock"@,
        ),
        v.xdg_runtime_dir is None && v.home is None ==> crate::endpoint::endpoint_path(
            Platform::Unix,
            v,
        ) is None,
        crate::endpoint::endpoint_path(Platform::Windows, v) == Some(
            "\\\\.\\pipe\\kaduox-ssh-daemon-v1"@,
        ),
{
    reveal_strlit("kaduox-ssh");
    reveal_strlit("daemon.sock");
    reveal_strlit(".cache");
    reveal_strlit("Library");
    reveal_strlit("Caches");
    reveal_strlit("Kaduox-SSH");
    lemma_entry(base, "kaduox-ssh"@, Platform::Unix);
    lemma_entry(base + seq!['/'] + "kaduox-ssh"@, "daemon.sock"@, Platform::Unix);
    let cache = base + seq!['/'] + ".cache"@;
    lemma_entry(base, ".cache"@, Platform::Unix);
    lemma_entry(cache, "kaduox-ssh"@, Platform::Unix);
    lemma_entry(cache + seq!['/'] + "kaduox-ssh"@, "daemon.sock"@, Platform::Unix);
    let library = base + seq!['/'] + "Library"@;
    let caches = library + seq!['/'] + "Caches"@;
    lemma_entry(base, "Library"@, Platform::MacOs);
    lemma_entry(library, "Caches"@, Platform::MacOs);
    lemma_entry(caches, "Kaduox-SSH"@, Platform::MacOs);
    lemma_entry(caches + seq!['/'] + "Kaduox-SSH"@, "daemon.sock"@, Platform::MacOs);
}

/// The home of a user is what `HOME` says; on Windows what `USERPROFILE` says, or
/// drive and path together, come before it.
pub proof fn homes_are_where_the_variables_say(v: DirectoryView)
    ensures
        crate::directories::user_home(Platform::Unix, v) == v.home,
        crate::directories::user_home(Platform::MacOs, v) == v.home,
        v.user_profile is Some ==> crate::directories::user_home(Platform::Windows, v)
            == v.user_profile,
        v.user_profile is None && v.home_drive is Some && v.home_path is Some
            ==> crate::directories::user_home(Platform::Windows, v) == Some(
            v.home_drive->0 + v.home_path->0,
        ),
        v.user_profile is None && (v.home_drive is None || v.home_path is None)
            ==> crate::directories::user_home(Platform::Windows, v) == v.home,
{
}

/// A client connects only to a socket that is one, in a directory that is one,
/// both without a link, both left to their owner alone, and of one owner.
pub proof fn clients_connect_to_private_sockets(directory: FileFacts, socket: FileFacts)
    ensures
        crate::endpoint::connect_problem(directory, socket) is None == {
            &&& directory.is_directory && !directory.is_link && directory.mode % 64 == 0
            &&& socket.is_socket && !socket.is_link && socket.mode % 64 == 0
            &&& socket.owner == directory.owner
        },
{
}

/// A socket that is there is taken over only where it is one, is no link, and
/// belongs to the user.
pub proof fn own_sockets_are_taken_over(socket: FileFacts, owner: u32)
    ensures
        crate::endpoint::existing_problem(socket, owner) is None == (socket.is_socket
            && !socket.is_link && socket.owner == owner),
        socket.is_link ==> crate::endpoint::existing_problem(socket, owner) == Some(
            EndpointProblem::SocketIsLink,
        ),
{
}

/// A daemon is not there where its socket is missing or nobody listens.
pub proof fn silence_means_no_daemon(kind: IoErrorKind)
    ensures
        crate::endpoint::says_unavailable(kind) == (kind == IoErrorKind::NotFound || kind
            == IoErrorKind::ConnectionRefused || kind == IoErrorKind::ConnectionReset || kind
            == IoErrorKind::BrokenPipe),
{
}

/// A file is trusted where it belongs to the user or to root, and neither its
/// group nor others may write it.
pub proof fn trusted_files_are_written_by_their_owner(owner: u32, uid: u32, mode: u32)
    ensures
        crate::config_trust::unix_trust(owner, uid, mode) is None == ((owner == uid || owner == 0)
            && mode / 16 % 2 == 0 && mode / 2 % 2 == 0),
        owner != uid && owner != 0 ==> crate::config_trust::unix_trust(owner, uid, mode) == Some(
            TrustProblem::ForeignOwner,
        ),
{
    assert((mode & 0o022 == 0) == (mode / 16 % 2 == 0 && mode / 2 % 2 == 0)) by (bit_vector);
}

/// The entry leaves nothing open: it allows nothing, or is whole, and is for
/// somebody trusted or allows no writing.
pub open spec fn is_harmless(e: AccessEntry, least: usize, fits: bool) -> bool {
    &&& e.ace_type != 4 && e.ace_type != 5 && e.ace_type != 9 && e.ace_type != 11
    &&& e.ace_type == 0 ==> {
        &&& e.ace_size >= least && fits && e.sid_valid
        &&& e.sid_trusted || e.mask & 0x000d_0116 == 0
    }
}

proof fn lemma_entries(entries: Seq<AccessEntry>, i: int)
    requires
        0 <= i <= entries.len(),
    ensures
        crate::config_trust::entries_fault(entries, i) is None == forall|k: int|
            i <= k < entries.len() ==> is_harmless(#[trigger] entries[k], 12, true),
    decreases entries.len() - i,
{
    if i < entries.len() {
        lemma_entries(entries, i + 1);
    }
}

/// A file of Windows is accepted exactly where its owner is known and trusted and
/// all entries of its access list leave nothing open.
pub proof fn accepted_files_leave_nothing_open(access: FileAccess)
    ensures
        crate::config_trust::access_fault(access) is None == {
            &&& access.owner_valid && access.owner_trusted && access.list_valid
            &&& forall|k: int|
                0 <= k < access.entries@.len() ==> is_harmless(
                    #[trigger] access.entries@[k],
                    12,
                    true,
                )
        },
{
    lemma_entries(access.entries@, 0);
}

/// An entry alone is judged by the same rule, with its size taken into account.
pub proof fn entries_are_judged_by_their_size(e: AccessEntry, least: usize)
    ensures
        crate::config_trust::entry_fault(e, least, crate::config_trust::sid_within(e)) is None
            == is_harmless(e, least, 8 + 4 * e.sub_authority_count <= e.ace_size - 8),
{
}

/// The inventory is the one that the user names; a name of white space alone names
/// none. Without one it lies below their configuration: where `XDG_CONFIG_HOME`
/// says, else in `.config` of their home, and on Windows where `APPDATA` says.
pub proof fn inventories_lie_below_the_configuration(
    named: Seq<char>,
    v: DirectoryView,
    platform: Platform,
    base: Seq<char>,
)
    requires
        base.len() > 0,
        base.last() != '/' && base.last() != '\\' && base.last() != ':',
        crate::text::trim(base).len() > 0,
    ensures
        crate::text::trim(named).len() > 0 ==> crate::inventory::inventory_path(
            Some(named),
            platform,
            v,
        ) == Some(named),
        crate::text::trim(named).len() == 0 ==> crate::inventory::inventory_path(
            Some(named),
            platform,
            v,
        ) == crate::inventory::inventory_path(None, platform, v),
        v.xdg_config_home == Some(base) && !(platform is Windows)
            ==> crate::inventory::inventory_path(None, platform, v) == Some(
            base + seq!['/'] + "kaduox-ssh"@ + seq!['/'] + "inventory"@,
        ),
        v.xdg_config_home is None && v.home == Some(base) && !(platform is Windows)
            ==> crate::inventory::inventory_path(None, platform, v) == Some(
            base + seq!['/'] + ".config"@ + seq!['/'] + "kaduox-ssh"@ + seq!['/'] + "inventory"@,
        ),
        v.app_data == Some(base) && platform is Windows ==> crate::inventory::inventory_path(
            None,
            platform,
            v,
        ) == Some(base + seq!['\\'] + "Kaduox-SSH"@ + seq!['\\'] + "inventory"@),
        v.app_data is None && v.home == Some(base) && platform is Windows
            ==> crate::inventory::inventory_path(None, platform, v) == Some(
            base + seq!['\\'] + ".config"@ + seq!['\\'] + "kaduox-ssh"@ + seq!['\\'] + "inventory"@,
        ),
        v.xdg_config_home is None && v.app_data is None && v.home is None
            ==> crate::inventory::inventory_path(None, platform, v) is None,
{
    reveal_strlit("kaduox-ssh");
    reveal_strlit("Kaduox-SSH");
    reveal_strlit("inventory");
    reveal_strlit(".config");
    let between = if platform is Windows { '\\' } else { '/' };
    let config = base + seq![between] + ".config"@;
    let small = base + seq![between] + "kaduox-ssh"@;
    let large = base + seq![between] + "Kaduox-SSH"@;
    let below = config + seq![between] + "kaduox-ssh"@;
    assert(config.last() == 'g' && small.last() == 'h' && large.last() == 'H' && below.last() == 'h');
    if !(platform is Windows) {
        lemma_entry(base, "kaduox-ssh"@, platform);
        lemma_entry(small, "inventory"@, platform);
        lemma_entry(base, ".config"@, platform);
        lemma_entry(config, "kaduox-ssh"@, platform);
        lemma_entry(below, "inventory"@, platform);
    }
}

} // verus!
