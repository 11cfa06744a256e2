//! Paths below a remote root.

use vstd::prelude::*;
use vstd::string::*;

use crate::text::ascii_letter;
use crate::text::chars_of;
use crate::text::contains_char;
use crate::text::joined;
use crate::text::joined3;
use crate::text::same_text;
use crate::text::split_on;

verus! {

#[derive(Debug, Clone, Copy, PartialEq, Eq, Structural)]
pub enum RemotePathProblem {
    EmptyName,
    Traversal,
    SeveralParts,
    Nul,
    EmptyPath,
    NotRelative,
    Drive,
}

/// How local paths are read.
#[derive(Debug, Clone, Copy, PartialEq, Eq, Structural)]
pub enum LocalPaths {
    Posix,
    Windows,
}

/// What is wrong with a name as the name of one entry of a directory.
pub open spec fn child_name_problem(name: Seq<char>) -> Option<RemotePathProblem> {
    if name.len() == 0 {
        Some(RemotePathProblem::EmptyName)
    } else if name == "."@ || name == ".."@ {
        Some(RemotePathProblem::Traversal)
    } else if name.contains('/') || name.contains('\\') {
        Some(RemotePathProblem::SeveralParts)
    } else if name.contains('\0') {
        Some(RemotePathProblem::Nul)
    } else {
        None
    }
}

pub open spec fn parts_problem(parts: Seq<Seq<char>>, i: int) -> Option<RemotePathProblem>
    decreases parts.len() - i,
{
    if i < 0 || i >= parts.len() {
        None
    } else if child_name_problem(parts[i]) is Some {
        child_name_problem(parts[i])
    } else {
        parts_problem(parts, i + 1)
    }
}

/// What is wrong with a path that has to stay below a root.
pub open spec fn relative_path_problem(path: Seq<char>) -> Option<RemotePathProblem> {
    if path.len() == 0 {
        Some(RemotePathProblem::EmptyPath)
    } else if path[0] == '/' || path[0] == '\\' {
        Some(RemotePathProblem::NotRelative)
    } else if path.contains('\0') {
        Some(RemotePathProblem::Nul)
    } else {
        parts_problem(crate::text::split(path, '/'), 0)
    }
}

/// Checks the name of one entry of a directory, as a server gives it.
pub fn validate_remote_child_name(name: &str) -> (r: Result<(), RemotePathProblem>)
    ensures
        match r {
            Ok(()) => child_name_problem(name@) is None,
            Err(e) => child_name_problem(name@) == Some(e),
        },
{
    if name.is_empty() {
        return Err(RemotePathProblem::EmptyName);
    }
    if same_text(name, ".") || same_text(name, "..") {
        return Err(RemotePathProblem::Traversal);
    }
    if contains_char(name, '/') || contains_char(name, '\\') {
        return Err(RemotePathProblem::SeveralParts);
    }
    if contains_char(name, '\0') {
        return Err(RemotePathProblem::Nul);
    }
    Ok(())
}

/// Checks a path that has to stay below a root.
pub fn validate_remote_relative_path(path: &str) -> (r: Result<(), RemotePathProblem>)
    ensures
        match r {
            Ok(()) => relative_path_problem(path@) is None,
            Err(e) => relative_path_problem(path@) == Some(e),
        },
{
    if path.is_empty() {
        return Err(RemotePathProblem::EmptyPath);
    }
    let chars = chars_of(path);
    if chars[0] == '/' || chars[0] == '\\' {
        return Err(RemotePathProblem::NotRelative);
    }
    if contains_char(path, '\0') {
        return Err(RemotePathProblem::Nul);
    }
    let parts = split_on(path, '/');
    let ghost all = crate::text::views(parts@);
    let mut i: usize = 0;
    while i < parts.len()
        invariant
            all == crate::text::views(parts@),
            all == crate::text::split(path@, '/'),
            path@.len() > 0,
            path@[0] != '/' && path@[0] != '\\',
            !path@.contains('\0'),
            i <= parts@.len(),
            parts_problem(all, 0) == parts_problem(all, i as int),
        decreases parts@.len() - i,
    {
        assert(all[i as int] == parts@[i as int]@);
        validate_remote_child_name(parts[i].as_str())?;
        i += 1;
    }
    Ok(())
}

/// The path below the root.
pub open spec fn under_root(root: Seq<char>, relative: Seq<char>) -> Seq<char> {
    if root.len() == 0 || root == "."@ {
        relative
    } else if root.last() == '/' {
        root + relative
    } else {
        root + seq!['/'] + relative
    }
}

/// Puts a path below a root.
pub(crate) fn place_under_root(root: &str, relative: &str) -> (r: String)
    ensures
        r@ == under_root(root@, relative@),
{
    if root.is_empty() || same_text(root, ".") {
        return relative.to_owned();
    }
    let chars = chars_of(root);
    if chars[chars.len() - 1] == '/' {
        return joined(root, relative);
    }
    proof {
        reveal_strlit("/");
        assert("/"@ =~= seq!['/']);
    }
    joined3(root, "/", relative)
}

/// Puts a checked path below a root.
pub fn join_remote_under_root(root: &str, relative: &str) -> (r: Result<String, RemotePathProblem>)
    ensures
        match r {
            Ok(path) => relative_path_problem(relative@) is None && path@ == under_root(
                root@,
                relative@,
            ),
            Err(e) => relative_path_problem(relative@) == Some(e),
        },
{
    validate_remote_relative_path(relative)?;
    Ok(place_under_root(root, relative))
}

/// The name begins with a drive, such as `C:`.
pub open spec fn has_drive(name: Seq<char>) -> bool {
    name.len() >= 2 && crate::text::is_ascii_letter(name[0]) && name[1] == ':'
}

pub open spec fn any_drive(parts: Seq<Seq<char>>) -> bool {
    exists|i: int| 0 <= i < parts.len() && has_drive(#[trigger] parts[i])
}

/// What is wrong with a path below a remote root as a local path.
pub open spec fn local_path_problem(path: Seq<char>, platform: LocalPaths) -> Option<
    RemotePathProblem,
> {
    if relative_path_problem(path) is Some {
        relative_path_problem(path)
    } else if platform is Windows && any_drive(crate::text::split(path, '/')) {
        Some(RemotePathProblem::Drive)
    } else {
        None
    }
}

/// The local path for a path below a remote root. Every part of a checked path
/// is an ordinary file name, so it is the same text.
pub fn local_path_from_remote_relative(relative: &str, platform: LocalPaths) -> (r: Result<
    String,
    RemotePathProblem,
>)
    ensures
        match r {
            Ok(path) => local_path_problem(relative@, platform) is None && path@ == relative@,
            Err(e) => local_path_problem(relative@, platform) == Some(e),
        },
{
    validate_remote_relative_path(relative)?;
    if platform == LocalPaths::Windows {
        let parts = split_on(relative, '/');
        let ghost all = crate::text::views(parts@);
        let mut i: usize = 0;
        while i < parts.len()
            invariant
                all == crate::text::views(parts@),
                all == crate::text::split(relative@, '/'),
                i <= parts@.len(),
                platform is Windows,
                relative_path_problem(relative@) is None,
                forall|k: int| 0 <= k < i ==> !has_drive(#[trigger] all[k]),
            decreases parts@.len() - i,
        {
            assert(all[i as int] == parts@[i as int]@);
            let chars = chars_of(parts[i].as_str());
            if chars.len() >= 2 && ascii_letter(chars[0]) && chars[1] == ':' {
                return Err(RemotePathProblem::Drive);
            }
            i += 1;
        }
    }
    Ok(relative.to_owned())
}

proof fn lemma_parts_fine(parts: Seq<Seq<char>>, i: int, k: int)
    requires
        0 <= i <= k < parts.len(),
        parts_problem(parts, i) is None,
    ensures
        child_name_problem(parts[k]) is None,
    decreases parts.len() - i,
{
    if i < k {
        lemma_parts_fine(parts, i + 1, k);
    }
}

/// The parts of an accepted path are names of entries: none is empty, `.` or
/// `..`, and none holds a separator. So the path leads nowhere above its root.
pub proof fn accepted_paths_stay_below(path: Seq<char>, k: int)
    requires
        relative_path_problem(path) is None,
        0 <= k < crate::text::split(path, '/').len(),
    ensures
        ({
            let part = crate::text::split(path, '/')[k];
            &&& part.len() > 0
            &&& part != "."@
            &&& part != ".."@
            &&& !part.contains('/')
            &&& !part.contains('\\')
        }),
{
    lemma_parts_fine(crate::text::split(path, '/'), 0, k);
}

proof fn lemma_split_add(a: Seq<char>, b: Seq<char>)
    ensures
        crate::text::split(a + seq!['/'] + b, '/') == crate::text::split(a, '/')
            + crate::text::split(b, '/'),
    decreases a.len(),
{
    let whole = a + seq!['/'] + b;
    let p = crate::text::position(a, '/');
    crate::text::lemma_position(a, '/');
    if p < a.len() {
        assert forall|k: int| 0 <= k < p implies whole[k] != '/' by {
            assert(whole[k] == a[k]);
        }
        assert(whole[p] == '/');
        crate::text::lemma_position_is(whole, '/', p);
        assert(whole.take(p) =~= a.take(p));
        let rest = a.skip(p + 1);
        assert(whole.skip(p + 1) =~= rest + seq!['/'] + b);
        lemma_split_add(rest, b);
        assert(crate::text::split(whole, '/') =~= crate::text::split(a, '/') + crate::text::split(
            b,
            '/',
        ));
    } else {
        assert forall|k: int| 0 <= k < a.len() implies whole[k] != '/' by {
            assert(whole[k] == a[k]);
        }
        assert(whole[a.len() as int] == '/');
        crate::text::lemma_position_is(whole, '/', a.len() as int);
        assert(whole.take(a.len() as int) =~= a);
        assert(whole.skip(a.len() as int + 1) =~= b);
        assert(crate::text::split(a, '/') =~= seq![a]);
        assert(crate::text::split(whole, '/') =~= crate::text::split(a, '/') + crate::text::split(
            b,
            '/',
        ));
    }
}

/// A joined path is the parts of the root followed by the parts of the path
/// below it.
pub proof fn joined_path_extends_its_root(root: Seq<char>, relative: Seq<char>)
    requires
        root.len() > 0,
        root != "."@,
        root.last() != '/',
    ensures
        crate::text::split(under_root(root, relative), '/') == crate::text::split(root, '/')
            + crate::text::split(relative, '/'),
{
    lemma_split_add(root, relative);
}

} // verus!
