//! Where the daemon listens, and whom it trusts there.

use vstd::prelude::*;
use vstd::string::*;

use crate::directories::entry_of;
use crate::directories::DirectoryVariables;
use crate::directories::DirectoryView;
use crate::directories::Platform;

verus! {

/// The kinds of input and output errors that are told apart.
#[derive(Debug, Clone, Copy, PartialEq, Eq, Structural)]
pub enum IoErrorKind {
    NotFound,
    ConnectionRefused,
    ConnectionReset,
    BrokenPipe,
    Other,
}

/// The error says that nobody listens.
pub open spec fn says_unavailable(kind: IoErrorKind) -> bool {
    !(kind is Other)
}

/// One of the causes of an error says that nobody listens.
pub fn is_endpoint_unavailable(causes: &[IoErrorKind]) -> (r: bool)
    ensures
        r == exists|i: int| 0 <= i < causes@.len() && says_unavailable(#[trigger] causes@[i]),
{
    let mut i: usize = 0;
    while i < causes.len()
        invariant
            i <= causes@.len(),
            forall|k: int| 0 <= k < i ==> !says_unavailable(#[trigger] causes@[k]),
        decreases causes@.len() - i,
    {
        match causes[i] {
            IoErrorKind::Other => {},
            _ => {
                assert(says_unavailable(causes@[i as int]));
                return true;
            },
        }
        i += 1;
    }
    false
}

/// The pipe on which the daemon listens on Windows.
pub const PIPE_NAME: &'static str = "\\\\.\\pipe\\kaduox-ssh-daemon-v1";

/// Where the daemon listens: at a socket in the runtime directory, or else in
/// the directory for caches below the home directory; on Windows at a pipe.
pub open spec fn endpoint_path(platform: Platform, variables: DirectoryView) -> Option<Seq<char>> {
    if platform is Windows {
        Some(PIPE_NAME@)
    } else if variables.xdg_runtime_dir is Some && variables.xdg_runtime_dir->0.len() > 0 {
        Some(
            crate::directories::entry_path(
                crate::directories::entry_path(variables.xdg_runtime_dir->0, "kaduox-ssh"@, platform),
                "daemon.sock"@,
                platform,
            ),
        )
    } else {
        match variables.home {
            Some(home) if platform is MacOs => Some(
                crate::directories::entry_path(
                    crate::directories::entry_path(
                        crate::directories::entry_path(
                            crate::directories::entry_path(home, "Library"@, platform),
                            "Caches"@,
                            platform,
                        ),
                        "Kaduox-SSH"@,
                        platform,
                    ),
                    "daemon.sock"@,
                    platform,
                ),
            ),
            Some(home) => Some(
                crate::directories::entry_path(
                    crate::directories::entry_path(
                        crate::directories::entry_path(home, ".cache"@, platform),
                        "kaduox-ssh"@,
                        platform,
                    ),
                    "daemon.sock"@,
                    platform,
                ),
            ),
            None => None,
        }
    }
}

pub fn default_endpoint_path(platform: Platform, variables: &DirectoryVariables) -> (r: Option<
    String,
>)
    ensures
        crate::model::option_view(r) == endpoint_path(platform, variables@),
{
    match platform {
        Platform::Windows => {
            return Some(PIPE_NAME.to_owned());
        },
        _ => {},
    }
    if let Some(runtime) = &variables.xdg_runtime_dir {
        if !runtime.as_str().is_empty() {
            let own = entry_of(runtime.as_str(), "kaduox-ssh", platform);
            return Some(entry_of(own.as_str(), "daemon.sock", platform));
        }
    }
    match &variables.home {
        Some(home) => {
            let own = match platform {
                Platform::MacOs => {
                    let library = entry_of(home.as_str(), "Library", platform);
                    let caches = entry_of(library.as_str(), "Caches", platform);
                    entry_of(caches.as_str(), "Kaduox-SSH", platform)
                },
                _ => {
                    let cache = entry_of(home.as_str(), ".cache", platform);
                    entry_of(cache.as_str(), "kaduox-ssh", platform)
                },
            };
            Some(entry_of(own.as_str(), "daemon.sock", platform))
        },
        None => None,
    }
}

/// What is known of a file, when a link at its end is not followed.
#[derive(Debug, Clone, Copy, PartialEq, Eq, Structural)]
pub struct FileFacts {
    pub is_link: bool,
    pub is_directory: bool,
    pub is_socket: bool,
    pub owner: u32,
    /// Permission bits.
    pub mode: u32,
}

#[derive(Debug, Clone, Copy, PartialEq, Eq, Structural)]
pub enum EndpointProblem {
    NotADirectory,
    SocketIsLink,
    NotASocket,
    ForeignSocket,
    AlreadyRunning,
    StateUnknown,
    NotPrivate,
    DirectoryNotPrivate,
    SocketNotPrivate,
    ForeignPeer,
}

impl EndpointProblem {
    pub open spec fn text(self) -> Seq<char> {
        match self {
            EndpointProblem::NotADirectory => "daemon directory is not a real directory"@,
            EndpointProblem::SocketIsLink => "refusing symlink daemon socket path"@,
            EndpointProblem::NotASocket => "existing daemon endpoint is not a Unix socket"@,
            EndpointProblem::ForeignSocket => "existing daemon socket has a different owner"@,
            EndpointProblem::AlreadyRunning => "kssh-daemon is already running"@,
            EndpointProblem::StateUnknown =>
                "failed to determine whether daemon socket is active"@,
            EndpointProblem::NotPrivate =>
                "daemon socket failed private ownership/mode validation"@,
            EndpointProblem::DirectoryNotPrivate => "daemon directory is not private"@,
            EndpointProblem::SocketNotPrivate => "daemon endpoint is not a private Unix socket"@,
            EndpointProblem::ForeignPeer => "daemon peer UID does not match socket owner"@,
        }
    }

    pub fn message(self) -> (r: &'static str)
        ensures
            r@ == self.text(),
    {
        match self {
            EndpointProblem::NotADirectory => "daemon directory is not a real directory",
            EndpointProblem::SocketIsLink => "refusing symlink daemon socket path",
            EndpointProblem::NotASocket => "existing daemon endpoint is not a Unix socket",
            EndpointProblem::ForeignSocket => "existing daemon socket has a different owner",
            EndpointProblem::AlreadyRunning => "kssh-daemon is already running",
            EndpointProblem::StateUnknown => "failed to determine whether daemon socket is active",
            EndpointProblem::NotPrivate =>
                "daemon socket failed private ownership/mode validation",
            EndpointProblem::DirectoryNotPrivate => "daemon directory is not private",
            EndpointProblem::SocketNotPrivate => "daemon endpoint is not a private Unix socket",
            EndpointProblem::ForeignPeer => "daemon peer UID does not match socket owner",
        }
    }
}

/// Group and others have no rights.
pub open spec fn private_mode(mode: u32) -> bool {
    mode % 64 == 0
}

fn is_private(mode: u32) -> (r: bool)
    ensures
        r == private_mode(mode),
{
    mode % 64 == 0
}

/// The directory of the socket is a directory, once it has been made.
pub fn check_own_directory(directory: FileFacts) -> (r: Result<(), EndpointProblem>)
    ensures
        if directory.is_link || !directory.is_directory {
            r == Err::<(), EndpointProblem>(EndpointProblem::NotADirectory)
        } else {
            r is Ok
        },
{
    if directory.is_link || !directory.is_directory {
        return Err(EndpointProblem::NotADirectory);
    }
    Ok(())
}

/// What a socket that stands at the path already has to be before it is tried.
pub open spec fn existing_problem(socket: FileFacts, owner: u32) -> Option<EndpointProblem> {
    if socket.is_link {
        Some(EndpointProblem::SocketIsLink)
    } else if !socket.is_socket {
        Some(EndpointProblem::NotASocket)
    } else if socket.owner != owner {
        Some(EndpointProblem::ForeignSocket)
    } else {
        None
    }
}

/// Checks what stands at the path of the socket before it is tried.
pub fn check_existing_socket(socket: FileFacts, owner: u32) -> (r: Result<(), EndpointProblem>)
    ensures
        match r {
            Ok(()) => existing_problem(socket, owner) is None,
            Err(e) => existing_problem(socket, owner) == Some(e),
        },
{
    if socket.is_link {
        return Err(EndpointProblem::SocketIsLink);
    }
    if !socket.is_socket {
        return Err(EndpointProblem::NotASocket);
    }
    if socket.owner != owner {
        return Err(EndpointProblem::ForeignSocket);
    }
    Ok(())
}

/// Decides over a socket that was tried: it may be removed where nobody
/// listens there.
pub fn may_remove_socket(tried: Result<(), IoErrorKind>) -> (r: Result<(), EndpointProblem>)
    ensures
        match tried {
            Ok(()) => r == Err::<(), EndpointProblem>(EndpointProblem::AlreadyRunning),
            Err(IoErrorKind::ConnectionRefused) => r is Ok,
            Err(IoErrorKind::NotFound) => r is Ok,
            Err(_) => r == Err::<(), EndpointProblem>(EndpointProblem::StateUnknown),
        },
{
    match tried {
        Ok(()) => Err(EndpointProblem::AlreadyRunning),
        Err(IoErrorKind::ConnectionRefused) => Ok(()),
        Err(IoErrorKind::NotFound) => Ok(()),
        Err(_) => Err(EndpointProblem::StateUnknown),
    }
}

/// Checks the socket that was made.
pub fn check_bound_socket(socket: FileFacts, owner: u32) -> (r: Result<(), EndpointProblem>)
    ensures
        if socket.owner == owner && private_mode(socket.mode) {
            r is Ok
        } else {
            r == Err::<(), EndpointProblem>(EndpointProblem::NotPrivate)
        },
{
    if socket.owner != owner || !is_private(socket.mode) {
        return Err(EndpointProblem::NotPrivate);
    }
    Ok(())
}

/// What keeps a client from the socket.
pub open spec fn connect_problem(directory: FileFacts, socket: FileFacts) -> Option<
    EndpointProblem,
> {
    if directory.is_link || !directory.is_directory || !private_mode(directory.mode) {
        Some(EndpointProblem::DirectoryNotPrivate)
    } else if socket.is_link || !socket.is_socket || !private_mode(socket.mode) {
        Some(EndpointProblem::SocketNotPrivate)
    } else if socket.owner != directory.owner {
        Some(EndpointProblem::ForeignSocket)
    } else {
        None
    }
}

/// Checks the socket and its directory before a client connects.
pub fn check_connect(directory: FileFacts, socket: FileFacts) -> (r: Result<(), EndpointProblem>)
    ensures
        match r {
            Ok(()) => connect_problem(directory, socket) is None,
            Err(e) => connect_problem(directory, socket) == Some(e),
        },
{
    if directory.is_link || !directory.is_directory || !is_private(directory.mode) {
        return Err(EndpointProblem::DirectoryNotPrivate);
    }
    if socket.is_link || !socket.is_socket || !is_private(socket.mode) {
        return Err(EndpointProblem::SocketNotPrivate);
    }
    if socket.owner != directory.owner {
        return Err(EndpointProblem::ForeignSocket);
    }
    Ok(())
}

/// Checks who is at the other end.
pub fn check_peer(peer: u32, owner: u32) -> (r: Result<(), EndpointProblem>)
    ensures
        if peer == owner {
            r is Ok
        } else {
            r == Err::<(), EndpointProblem>(EndpointProblem::ForeignPeer)
        },
{
    if peer != owner {
        return Err(EndpointProblem::ForeignPeer);
    }
    Ok(())
}

/// A client talks to a socket only where group and others have no rights, on
/// it and on its directory, and both have one owner.
pub proof fn clients_use_private_sockets(directory: FileFacts, socket: FileFacts)
    requires
        connect_problem(directory, socket) is None,
    ensures
        private_mode(directory.mode),
        private_mode(socket.mode),
        socket.owner == directory.owner,
        socket.is_socket,
        !socket.is_link,
        !directory.is_link,
{
}

} // verus!
