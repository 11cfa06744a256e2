//! What the daemon decides about the frames of its clients.

use vstd::prelude::*;
use vstd::string::*;

use crate::auth::Authentication;
use crate::client::RemoteUser;
use crate::config::ConnectionConfig;
use crate::config::Span;
use crate::connect::JumpAuthRequest;
use crate::manager::ConnectionManager;
use crate::manager::ConnectionManagerConfig;
use crate::model::copy_texts;
use crate::model::StoredAuthMethod;
use crate::protocol::AuthRequest;
use crate::protocol::ClientFrame;
use crate::protocol::ServerFrame;
use crate::store::HostStore;
use crate::text::joined;
use crate::text::quoted;

verus! {

pub const OUTPUT_PIPE_BYTES: usize = 65536;

pub const INPUT_PIPE_BYTES: usize = 65536;

pub const IDLE_PRUNE_INTERVAL_SECS: u64 = 30;

/// What the daemon keeps: its connections, and whether it is to stop.
pub struct DaemonState {
    pub pool: ConnectionManager,
    pub stopping: bool,
}

/// A pool that holds nothing and has handed out nothing.
pub open spec fn empty_pool(config: ConnectionManagerConfig) -> crate::manager::PoolView {
    crate::manager::PoolView {
        config,
        connections: Seq::empty(),
        connecting: Seq::empty(),
        held: 0,
        pending: 0,
        tickets: 0,
    }
}

impl Default for DaemonState {
    fn default() -> (r: Self)
        ensures
            r.pool@.wf(),
            r.pool@ == empty_pool(
                ConnectionManagerConfig {
                    max_connections: crate::manager::DEFAULT_MAX_CONNECTIONS,
                    idle_timeout: Span { secs: crate::manager::DEFAULT_IDLE_SECS, nanos: 0 },
                },
            ),
            !r.stopping,
    {
        DaemonState::new(ConnectionManagerConfig::default())
    }
}

impl DaemonState {
    pub fn new(config: ConnectionManagerConfig) -> (r: Self)
        ensures
            r.pool@.wf(),
            r.pool@ == empty_pool(config),
            !r.stopping,
    {
        DaemonState { pool: ConnectionManager::new(config), stopping: false }
    }

    pub fn manager(&self) -> (r: &ConnectionManager)
        ensures
            *r == self.pool,
    {
        &self.pool
    }
}

/// What a client wants whose first frame is neither answered at once nor wrong.
pub enum Operation {
    Exec { alias: String, auth: Option<AuthRequest>, command: String, as_user: Option<String> },
    Shell {
        alias: String,
        auth: Option<AuthRequest>,
        term: String,
        columns: u32,
        rows: u32,
        as_user: Option<String>,
    },
}

/// What to do after the first frame of a client.
pub enum FirstStep {
    Reply(ServerFrame),
    /// The connection with this number is closed, and then the reply sent.
    Close(u64),
    Run(Operation),
}

/// The operation is the one of the frame.
pub open spec fn runs(operation: Operation, frame: ClientFrame) -> bool {
    match operation {
        Operation::Exec { alias, auth, command, as_user } => frame == (ClientFrame::Exec {
            alias,
            auth,
            command,
            as_user,
        }),
        Operation::Shell { alias, auth, term, columns, rows, as_user } => frame == (
        ClientFrame::Shell { alias, auth, term, columns, rows, as_user }),
    }
}

pub open spec fn unknown_connection(alias: Seq<char>) -> Seq<char> {
    "no cached connection named "@ + crate::text::debug_text(alias)
}

impl DaemonState {
    /// Takes in the first frame of a client. `shared` are the connections that
    /// somebody uses.
    pub fn first_frame(&mut self, frame: ClientFrame, shared: &[u64]) -> (r: FirstStep)
        requires
            old(self).pool@.wf(),
        ensures
            final(self).pool@.wf(),
            final(self).stopping == (old(self).stopping || frame is Shutdown),
            !(frame is Disconnect) ==> final(self).pool@ == old(self).pool@,
            match frame {
                ClientFrame::Ping => r == FirstStep::Reply(ServerFrame::Done),
                ClientFrame::Shutdown => r == FirstStep::Reply(ServerFrame::Done),
                ClientFrame::Status => r matches FirstStep::Reply(reply) && reply == (
                ServerFrame::Status {
                    total_connections: old(self).pool@.connections.len() as usize,
                    in_use_connections: crate::manager::in_use_from(
                        old(self).pool@.connections,
                        shared@,
                        0,
                    ) as usize,
                    active_leases: crate::manager::leases_before(
                        old(self).pool@.connections,
                        old(self).pool@.connections.len() as int,
                    ) as usize,
                    max_connections: old(self).pool@.config.max_connections,
                    available_capacity: (old(self).pool@.config.max_connections - old(
                        self,
                    ).pool@.held) as usize,
                }),
                ClientFrame::Disconnect { alias } => {
                    &&& final(self).pool@ == old(self).pool@.without_connection(alias@)
                    &&& match crate::text_map::lookup(old(self).pool@.connections, alias@) {
                        Some(m) => r == FirstStep::Close(m.id),
                        None => r matches FirstStep::Reply(reply) && reply@
                            == crate::protocol::ServerView::Error(unknown_connection(alias@)),
                    }
                },
                ClientFrame::Exec { .. } => r matches FirstStep::Run(operation) && runs(
                    operation,
                    frame,
                ),
                ClientFrame::Shell { .. } => r matches FirstStep::Run(operation) && runs(
                    operation,
                    frame,
                ),
                _ => r matches FirstStep::Reply(reply) && reply@
                    == crate::protocol::ServerView::Error(
                    "stream/control frame received before an operation"@,
                ),
            },
    {
        match frame {
            ClientFrame::Ping => FirstStep::Reply(ServerFrame::Done),
            ClientFrame::Status => {
                let s = self.pool.snapshot(shared);
                FirstStep::Reply(
                    ServerFrame::Status {
                        total_connections: s.total_connections,
                        in_use_connections: s.in_use_connections,
                        active_leases: s.active_leases,
                        max_connections: s.max_connections,
                        available_capacity: s.available_capacity,
                    },
                )
            },
            ClientFrame::Disconnect { alias } => match self.pool.remove(alias.as_str()) {
                Some(id) => FirstStep::Close(id),
                None => {
                    let name = quoted(alias.as_str());
                    FirstStep::Reply(
                        ServerFrame::Error(joined("no cached connection named ", name.as_str())),
                    )
                },
            },
            ClientFrame::Exec { alias, auth, command, as_user } => FirstStep::Run(
                Operation::Exec { alias, auth, command, as_user },
            ),
            ClientFrame::Shell { alias, auth, term, columns, rows, as_user } => FirstStep::Run(
                Operation::Shell { alias, auth, term, columns, rows, as_user },
            ),
            ClientFrame::Shutdown => {
                self.stopping = true;
                FirstStep::Reply(ServerFrame::Done)
            },
            _ => FirstStep::Reply(
                ServerFrame::Error("stream/control frame received before an operation".to_owned()),
            ),
        }
    }
}

/// How credentials of a jump host are got.
pub enum JumpStep {
    /// Agent and identity files are tried first, without asking.
    Use(Authentication),
    /// The client is asked.
    Ask(ServerFrame),
}

/// The first attempt asks nobody; later ones ask the client.
pub fn ask_jump_auth(request: &JumpAuthRequest) -> (r: JumpStep)
    ensures
        if request.attempt == 1 {
            r matches JumpStep::Use(auth) && auth@ == (crate::auth::AuthView::Auto {
                identity_files: request@.jump.identity_files,
                passphrase: None,
            })
        } else {
            r matches JumpStep::Ask(frame) && frame@
                == (crate::protocol::ServerView::JumpAuthChallenge {
                index: request.index,
                total: request.total,
                attempt: request.attempt,
                alias: request@.jump.alias,
                host: request@.jump.host,
                port: request@.jump.port,
                previous_failed: request.previous_failed,
            })
        },
{
    if request.attempt == 1 {
        return JumpStep::Use(
            Authentication::Auto {
                identity_files: copy_texts(&request.jump.identity_files),
                passphrase: None,
            },
        );
    }
    JumpStep::Ask(
        ServerFrame::JumpAuthChallenge {
            index: request.index,
            total: request.total,
            attempt: request.attempt,
            alias: request.jump.alias.clone(),
            host: request.jump.host.clone(),
            port: request.jump.port,
            previous_failed: request.previous_failed,
        },
    )
}

/// What the client's answer means: credentials, giving up, or nothing that
/// can be understood.
pub fn take_jump_answer(answer: Option<ClientFrame>, request: &JumpAuthRequest) -> (r: Result<
    Option<Authentication>,
    (),
>)
    ensures
        match answer {
            None => r == Ok::<Option<Authentication>, ()>(None),
            Some(ClientFrame::JumpAuthResponse { auth }) => match auth {
                None => r == Ok::<Option<Authentication>, ()>(None),
                Some(a) => r matches Ok(Some(got)) && got@ == a@.authentication(
                    request@.jump.identity_files,
                ),
            },
            Some(_) => r is Err,
        },
{
    match answer {
        None => Ok(None),
        Some(ClientFrame::JumpAuthResponse { auth }) => match auth {
            None => Ok(None),
            Some(a) => {
                let files = copy_texts(&request.jump.identity_files);
                Ok(Some(a.into_authentication(files)))
            },
        },
        Some(_) => Err(()),
    }
}

pub open spec fn method_of(auth: crate::protocol::RequestView) -> StoredAuthMethod {
    match auth {
        crate::protocol::RequestView::Auto => StoredAuthMethod::Auto,
        crate::protocol::RequestView::Agent => StoredAuthMethod::Agent,
        crate::protocol::RequestView::Password(_) => StoredAuthMethod::Password,
        crate::protocol::RequestView::KeyboardInteractive(_) =>
            StoredAuthMethod::KeyboardInteractive,
        crate::protocol::RequestView::PrivateKey { .. } => StoredAuthMethod::PrivateKey,
    }
}

pub fn stored_auth_method(auth: &AuthRequest) -> (r: StoredAuthMethod)
    ensures
        r == method_of(auth@),
{
    match auth {
        AuthRequest::Auto => StoredAuthMethod::Auto,
        AuthRequest::Agent => StoredAuthMethod::Agent,
        AuthRequest::Password(_) => StoredAuthMethod::Password,
        AuthRequest::KeyboardInteractive(_) => StoredAuthMethod::KeyboardInteractive,
        AuthRequest::PrivateKey { .. } => StoredAuthMethod::PrivateKey,
    }
}

/// How a client gets a connection.
pub enum ClientPlan {
    /// The one that is there.
    Reuse,
    /// The one that is there was made for another configuration.
    Mismatch,
    /// None is there, and none can be made without credentials.
    AuthRequired,
    /// One is made with these credentials, and their kind noted.
    Connect { authentication: Authentication, method: StoredAuthMethod },
}

/// Decides how a client gets a connection, given the configuration of the one
/// that is there under its name.
pub fn plan_client(
    existing: Option<&ConnectionConfig>,
    resolved: &ConnectionConfig,
    auth: Option<AuthRequest>,
) -> (r: ClientPlan)
    ensures
        match existing {
            Some(config) => if config@.same(resolved@) {
                r is Reuse
            } else {
                r is Mismatch
            },
            None => match auth {
                None => r is AuthRequired,
                Some(a) => r matches ClientPlan::Connect { authentication, method }
                    && authentication@ == a@.authentication(resolved@.identity_files) && method
                    == method_of(a@),
            },
        },
{
    match existing {
        Some(config) => if config.same(resolved) {
            ClientPlan::Reuse
        } else {
            ClientPlan::Mismatch
        },
        None => match auth {
            None => ClientPlan::AuthRequired,
            Some(a) => {
                let method = stored_auth_method(&a);
                let files = copy_texts(&resolved.identity_files);
                ClientPlan::Connect { authentication: a.into_authentication(files), method }
            },
        },
    }
}

/// The kind of credentials that is noted for a use: the new one, or else the
/// last, or else automatic.
pub open spec fn noted_method(
    fresh: Option<StoredAuthMethod>,
    last: Option<StoredAuthMethod>,
) -> StoredAuthMethod {
    match (fresh, last) {
        (Some(m), _) => m,
        (None, Some(m)) => m,
        (None, None) => StoredAuthMethod::Auto,
    }
}

/// Notes the use of a stored host. A host that is not stored is left alone.
/// Says whether anything was noted.
pub fn record_store_use(
    store: &mut HostStore,
    alias: &str,
    fresh: Option<StoredAuthMethod>,
    now: u64,
) -> (r: bool)
    ensures
        final(store).location() == old(store).location(),
        match crate::text_map::lookup(old(store).data()@.hosts, alias@) {
            None => !r && final(store).data()@ == old(store).data()@,
            Some(record) => if record.stats.connection_count == u64::MAX {
                !r && final(store).data()@ == old(store).data()@
            } else {
                r && final(store).data()@ == (crate::model::HostDatabaseView {
                    hosts: crate::text_map::put(
                        old(store).data()@.hosts,
                        alias@,
                        crate::store::after_success(
                            record,
                            noted_method(fresh, record.stats.last_auth_method),
                            now,
                        ),
                    ),
                    ..old(store).data()@
                })
            },
        },
{
    let last = match store.host(alias) {
        Some(record) => record.stats.last_auth_method,
        None => {
            return false;
        },
    };
    let method = match (fresh, last) {
        (Some(m), _) => m,
        (None, Some(m)) => m,
        (None, None) => StoredAuthMethod::Auto,
    };
    match store.record_success(alias, method, now) {
        Ok(()) => true,
        Err(_) => false,
    }
}

/// The user that a command runs as.
pub fn remote_user(as_user: Option<String>) -> (r: RemoteUser)
    ensures
        match as_user {
            Some(name) => r == RemoteUser::Sudo(name),
            None => r is Current,
        },
{
    match as_user {
        Some(name) => RemoteUser::Sudo(name),
        None => RemoteUser::Current,
    }
}

/// What to do with a frame that comes while a shell runs.
#[derive(Debug, PartialEq, Eq)]
pub enum ShellControl {
    Write(Vec<u8>),
    Resize { columns: u32, rows: u32 },
    CloseInput,
    /// The client is gone.
    Abort,
    /// The shell is ended, and this said.
    AbortWith(ServerFrame),
}

pub fn shell_frame(frame: Option<ClientFrame>) -> (r: ShellControl)
    ensures
        match frame {
            None => r is Abort,
            Some(ClientFrame::Input(bytes)) => r == ShellControl::Write(bytes),
            Some(ClientFrame::Resize { columns, rows }) => r == (ShellControl::Resize {
                columns,
                rows,
            }),
            Some(ClientFrame::Eof) => r is CloseInput,
            Some(_) => r matches ShellControl::AbortWith(reply) && reply@
                == crate::protocol::ServerView::Error("invalid control frame during daemon shell"@),
        },
{
    match frame {
        None => ShellControl::Abort,
        Some(ClientFrame::Input(bytes)) => ShellControl::Write(bytes),
        Some(ClientFrame::Resize { columns, rows }) => ShellControl::Resize { columns, rows },
        Some(ClientFrame::Eof) => ShellControl::CloseInput,
        Some(_) => ShellControl::AbortWith(
            ServerFrame::Error("invalid control frame during daemon shell".to_owned()),
        ),
    }
}

/// The frame for output that was read; nothing once there is none.
pub fn output_frame(bytes: Vec<u8>, stderr: bool) -> (r: Option<ServerFrame>)
    ensures
        if bytes@.len() == 0 {
            r is None
        } else if stderr {
            r == Some(ServerFrame::Stderr(bytes))
        } else {
            r == Some(ServerFrame::Stdout(bytes))
        },
{
    if bytes.len() == 0 {
        None
    } else if stderr {
        Some(ServerFrame::Stderr(bytes))
    } else {
        Some(ServerFrame::Stdout(bytes))
    }
}

/// The frame that ends an operation.
pub fn last_frame(result: Result<Option<u32>, String>) -> (r: ServerFrame)
    ensures
        match result {
            Ok(status) => r == ServerFrame::Exit(status),
            Err(message) => r == ServerFrame::Error(message),
        },
{
    match result {
        Ok(status) => ServerFrame::Exit(status),
        Err(message) => ServerFrame::Error(message),
    }
}

} // verus!
