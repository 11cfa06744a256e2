//! The frames between the daemon and its clients.

use vstd::prelude::*;
use vstd::string::*;

use crate::auth::Authentication;
use crate::text::joined3;
use crate::text::quoted;
use crate::text::text_from_utf8;

verus! {

pub const PROTOCOL_VERSION: u16 = 2;

pub const MAX_FRAME_BYTES: usize = 1048576;

pub const MAX_ALIAS_BYTES: usize = 128;

pub const MAX_COMMAND_BYTES: usize = 262144;

pub const MAX_SECRET_BYTES: usize = 65536;

pub const OUTPUT_CHUNK_BYTES: usize = 16384;

pub const MAX_TERM_BYTES: usize = 256;

pub const MAX_PATH_BYTES: usize = 4096;

/// How a client wants the daemon to authenticate.
#[derive(Clone)]
pub enum AuthRequest {
    Auto,
    Agent,
    Password(String),
    KeyboardInteractive(String),
    PrivateKey { path: String, passphrase: Option<String> },
}

#[verifier::ext_equal]
pub enum RequestView {
    Auto,
    Agent,
    Password(Seq<char>),
    KeyboardInteractive(Seq<char>),
    PrivateKey { path: Seq<char>, passphrase: Option<Seq<char>> },
}

impl View for AuthRequest {
    type V = RequestView;

    open spec fn view(&self) -> RequestView {
        match *self {
            AuthRequest::Auto => RequestView::Auto,
            AuthRequest::Agent => RequestView::Agent,
            AuthRequest::Password(secret) => RequestView::Password(secret@),
            AuthRequest::KeyboardInteractive(secret) => RequestView::KeyboardInteractive(secret@),
            AuthRequest::PrivateKey { path, passphrase } => RequestView::PrivateKey {
                path: path@,
                passphrase: crate::model::option_view(passphrase),
            },
        }
    }
}

pub open spec fn request_view(auth: Option<AuthRequest>) -> Option<RequestView> {
    match auth {
        Some(a) => Some(a@),
        None => None,
    }
}

impl RequestView {
    /// The authentication that is asked for.
    pub open spec fn authentication(self, identities: Seq<Seq<char>>) -> crate::auth::AuthView {
        match self {
            RequestView::Auto => crate::auth::AuthView::Auto {
                identity_files: identities,
                passphrase: None,
            },
            RequestView::Agent => crate::auth::AuthView::Agent,
            RequestView::Password(secret) => crate::auth::AuthView::Password(secret),
            RequestView::KeyboardInteractive(secret) =>
                crate::auth::AuthView::KeyboardInteractive(secret),
            RequestView::PrivateKey { path, passphrase } => crate::auth::AuthView::PrivateKey {
                path,
                passphrase,
            },
        }
    }

    /// What may be shown of a request.
    pub open spec fn shown(self) -> Seq<char> {
        match self {
            RequestView::Auto => "Auto"@,
            RequestView::Agent => "Agent"@,
            RequestView::Password(_) => "Password(<redacted>)"@,
            RequestView::KeyboardInteractive(_) => "KeyboardInteractive(<redacted>)"@,
            RequestView::PrivateKey { path, passphrase } => "PrivateKey { path: "@
                + crate::text::debug_text(path) + (if passphrase is Some {
                ", has_passphrase: true }"@
            } else {
                ", has_passphrase: false }"@
            }),
        }
    }
}

impl AuthRequest {
    pub fn into_authentication(self, configured_identities: Vec<String>) -> (r: Authentication)
        ensures
            r@ == self@.authentication(crate::text::views(configured_identities@)),
    {
        match self {
            AuthRequest::Auto => Authentication::Auto {
                identity_files: configured_identities,
                passphrase: None,
            },
            AuthRequest::Agent => Authentication::Agent,
            AuthRequest::Password(secret) => Authentication::Password(secret),
            AuthRequest::KeyboardInteractive(secret) => Authentication::KeyboardInteractive(secret),
            AuthRequest::PrivateKey { path, passphrase } => Authentication::PrivateKey {
                path,
                passphrase,
            },
        }
    }

    /// A text for people, without any secret.
    pub fn describe(&self) -> (r: String)
        ensures
            r@ == self@.shown(),
    {
        match self {
            AuthRequest::Auto => "Auto".to_owned(),
            AuthRequest::Agent => "Agent".to_owned(),
            AuthRequest::Password(_) => "Password(<redacted>)".to_owned(),
            AuthRequest::KeyboardInteractive(_) => "KeyboardInteractive(<redacted>)".to_owned(),
            AuthRequest::PrivateKey { path, passphrase } => {
                let name = quoted(path.as_str());
                joined3(
                    "PrivateKey { path: ",
                    name.as_str(),
                    if passphrase.is_some() {
                        ", has_passphrase: true }"
                    } else {
                        ", has_passphrase: false }"
                    },
                )
            },
        }
    }
}

/// What a client sends.
#[derive(Clone)]
pub enum ClientFrame {
    Ping,
    Status,
    Disconnect { alias: String },
    Exec { alias: String, auth: Option<AuthRequest>, command: String, as_user: Option<String> },
    Shell {
        alias: String,
        auth: Option<AuthRequest>,
        term: String,
        columns: u32,
        rows: u32,
        as_user: Option<String>,
    },
    Input(Vec<u8>),
    Resize { columns: u32, rows: u32 },
    Eof,
    Shutdown,
    JumpAuthResponse { auth: Option<AuthRequest> },
}

#[verifier::ext_equal]
pub enum ClientView {
    Ping,
    Status,
    Disconnect { alias: Seq<char> },
    Exec {
        alias: Seq<char>,
        auth: Option<RequestView>,
        command: Seq<char>,
        as_user: Option<Seq<char>>,
    },
    Shell {
        alias: Seq<char>,
        auth: Option<RequestView>,
        term: Seq<char>,
        columns: u32,
        rows: u32,
        as_user: Option<Seq<char>>,
    },
    Input(Seq<u8>),
    Resize { columns: u32, rows: u32 },
    Eof,
    Shutdown,
    JumpAuthResponse { auth: Option<RequestView> },
}

impl View for ClientFrame {
    type V = ClientView;

    open spec fn view(&self) -> ClientView {
        match *self {
            ClientFrame::Ping => ClientView::Ping,
            ClientFrame::Status => ClientView::Status,
            ClientFrame::Disconnect { alias } => ClientView::Disconnect { alias: alias@ },
            ClientFrame::Exec { alias, auth, command, as_user } => ClientView::Exec {
                alias: alias@,
                auth: request_view(auth),
                command: command@,
                as_user: crate::model::option_view(as_user),
            },
            ClientFrame::Shell { alias, auth, term, columns, rows, as_user } => ClientView::Shell {
                alias: alias@,
                auth: request_view(auth),
                term: term@,
                columns,
                rows,
                as_user: crate::model::option_view(as_user),
            },
            ClientFrame::Input(bytes) => ClientView::Input(bytes@),
            ClientFrame::Resize { columns, rows } => ClientView::Resize { columns, rows },
            ClientFrame::Eof => ClientView::Eof,
            ClientFrame::Shutdown => ClientView::Shutdown,
            ClientFrame::JumpAuthResponse { auth } => ClientView::JumpAuthResponse {
                auth: request_view(auth),
            },
        }
    }
}

/// What the daemon sends.
#[derive(Debug, Clone, PartialEq, Eq)]
pub enum ServerFrame {
    Done,
    Error(String),
    AuthRequired,
    Stdout(Vec<u8>),
    Stderr(Vec<u8>),
    Exit(Option<u32>),
    Status {
        total_connections: usize,
        in_use_connections: usize,
        active_leases: usize,
        max_connections: usize,
        available_capacity: usize,
    },
    Cache { reused: bool },
    JumpAuthChallenge {
        index: usize,
        total: usize,
        attempt: usize,
        alias: String,
        host: String,
        port: u16,
        previous_failed: bool,
    },
}

#[verifier::ext_equal]
pub enum ServerView {
    Done,
    Error(Seq<char>),
    AuthRequired,
    Stdout(Seq<u8>),
    Stderr(Seq<u8>),
    Exit(Option<u32>),
    Status {
        total_connections: usize,
        in_use_connections: usize,
        active_leases: usize,
        max_connections: usize,
        available_capacity: usize,
    },
    Cache { reused: bool },
    JumpAuthChallenge {
        index: usize,
        total: usize,
        attempt: usize,
        alias: Seq<char>,
        host: Seq<char>,
        port: u16,
        previous_failed: bool,
    },
}

impl View for ServerFrame {
    type V = ServerView;

    open spec fn view(&self) -> ServerView {
        match *self {
            ServerFrame::Done => ServerView::Done,
            ServerFrame::Error(message) => ServerView::Error(message@),
            ServerFrame::AuthRequired => ServerView::AuthRequired,
            ServerFrame::Stdout(bytes) => ServerView::Stdout(bytes@),
            ServerFrame::Stderr(bytes) => ServerView::Stderr(bytes@),
            ServerFrame::Exit(status) => ServerView::Exit(status),
            ServerFrame::Status {
                total_connections,
                in_use_connections,
                active_leases,
                max_connections,
                available_capacity,
            } => ServerView::Status {
                total_connections,
                in_use_connections,
                active_leases,
                max_connections,
                available_capacity,
            },
            ServerFrame::Cache { reused } => ServerView::Cache { reused },
            ServerFrame::JumpAuthChallenge {
                index,
                total,
                attempt,
                alias,
                host,
                port,
                previous_failed,
            } => ServerView::JumpAuthChallenge {
                index,
                total,
                attempt,
                alias: alias@,
                host: host@,
                port,
                previous_failed,
            },
        }
    }
}

#[derive(Debug, Clone, Copy, PartialEq, Eq, Structural)]
pub enum FrameProblem {
    FieldTooLong,
    NumberTooLarge,
    EndedEarly,
    BadFlag,
    NotText,
    UnknownAuthentication,
    UnknownTag,
    TrailingBytes,
    BadLength,
}

impl FrameProblem {
    pub open spec fn text(self) -> Seq<char> {
        match self {
            FrameProblem::FieldTooLong => "daemon IPC field exceeds its limit"@,
            FrameProblem::NumberTooLarge => "daemon IPC counter does not fit"@,
            FrameProblem::EndedEarly => "daemon IPC frame ended unexpectedly"@,
            FrameProblem::BadFlag => "invalid daemon IPC flag value"@,
            FrameProblem::NotText => "daemon IPC string is not valid UTF-8"@,
            FrameProblem::UnknownAuthentication => "unknown daemon authentication kind"@,
            FrameProblem::UnknownTag => "unknown daemon frame tag"@,
            FrameProblem::TrailingBytes => "daemon IPC frame contains trailing bytes"@,
            FrameProblem::BadLength => "daemon IPC frame length is out of range"@,
        }
    }

    pub fn message(self) -> (r: &'static str)
        ensures
            r@ == self.text(),
    {
        match self {
            FrameProblem::FieldTooLong => "daemon IPC field exceeds its limit",
            FrameProblem::NumberTooLarge => "daemon IPC counter does not fit",
            FrameProblem::EndedEarly => "daemon IPC frame ended unexpectedly",
            FrameProblem::BadFlag => "invalid daemon IPC flag value",
            FrameProblem::NotText => "daemon IPC string is not valid UTF-8",
            FrameProblem::UnknownAuthentication => "unknown daemon authentication kind",
            FrameProblem::UnknownTag => "unknown daemon frame tag",
            FrameProblem::TrailingBytes => "daemon IPC frame contains trailing bytes",
            FrameProblem::BadLength => "daemon IPC frame length is out of range",
        }
    }
}

// Bytes of values.

#[verifier::opaque]
pub open spec fn u16_bytes(n: u16) -> Seq<u8> {
    seq![(n / 256) as u8, (n % 256) as u8]
}

#[verifier::opaque]
pub open spec fn u32_bytes(n: u32) -> Seq<u8> {
    seq![
        (n / 16777216) as u8,
        ((n / 65536) % 256) as u8,
        ((n / 256) % 256) as u8,
        (n % 256) as u8,
    ]
}

#[verifier::opaque]
pub open spec fn u64_bytes(n: u64) -> Seq<u8> {
    u32_bytes((n / 4294967296) as u32) + u32_bytes((n % 4294967296) as u32)
}

/// The one after the other, unless one of them cannot be written.
pub open spec fn both(a: Result<Seq<u8>, FrameProblem>, b: Result<Seq<u8>, FrameProblem>) -> Result<
    Seq<u8>,
    FrameProblem,
> {
    match (a, b) {
        (Err(e), _) => Err(e),
        (Ok(_), Err(e)) => Err(e),
        (Ok(x), Ok(y)) => Ok(x + y),
    }
}

pub open spec fn plain(bytes: Seq<u8>) -> Result<Seq<u8>, FrameProblem> {
    Ok(bytes)
}

#[verifier::opaque]
pub open spec fn field(bytes: Seq<u8>, max: int) -> Result<Seq<u8>, FrameProblem> {
    if bytes.len() > max {
        Err(FrameProblem::FieldTooLong)
    } else {
        Ok(u32_bytes(bytes.len() as u32) + bytes)
    }
}

#[verifier::opaque]
pub open spec fn text_field(text: Seq<char>, max: int) -> Result<Seq<u8>, FrameProblem> {
    field(vstd::utf8::encode_utf8(text), max)
}

#[verifier::opaque]
pub open spec fn optional_field(text: Option<Seq<char>>, max: int) -> Result<
    Seq<u8>,
    FrameProblem,
> {
    match text {
        None => Ok(seq![0u8]),
        Some(t) => both(plain(seq![1u8]), text_field(t, max)),
    }
}

#[verifier::opaque]
pub open spec fn auth_field(auth: Option<RequestView>) -> Result<Seq<u8>, FrameProblem> {
    match auth {
        None => Ok(seq![0u8]),
        Some(RequestView::Auto) => Ok(seq![1u8]),
        Some(RequestView::Agent) => Ok(seq![2u8]),
        Some(RequestView::Password(secret)) => both(
            plain(seq![3u8]),
            text_field(secret, MAX_SECRET_BYTES as int),
        ),
        Some(RequestView::KeyboardInteractive(secret)) => both(
            plain(seq![4u8]),
            text_field(secret, MAX_SECRET_BYTES as int),
        ),
        Some(RequestView::PrivateKey { path, passphrase }) => both(
            plain(seq![5u8]),
            both(
                text_field(path, MAX_PATH_BYTES as int),
                optional_field(passphrase, MAX_SECRET_BYTES as int),
            ),
        ),
    }
}

/// The bytes of a client's frame.
pub open spec fn client_bytes(frame: ClientView) -> Result<Seq<u8>, FrameProblem> {
    match frame {
        ClientView::Ping => Ok(seq![1u8]),
        ClientView::Status => Ok(seq![2u8]),
        ClientView::Disconnect { alias } => both(
            plain(seq![3u8]),
            text_field(alias, MAX_ALIAS_BYTES as int),
        ),
        ClientView::Exec { alias, auth, command, as_user } => both(
            plain(seq![4u8]),
            both(
                text_field(alias, MAX_ALIAS_BYTES as int),
                both(
                    auth_field(auth),
                    both(
                        text_field(command, MAX_COMMAND_BYTES as int),
                        optional_field(as_user, MAX_ALIAS_BYTES as int),
                    ),
                ),
            ),
        ),
        ClientView::Shell { alias, auth, term, columns, rows, as_user } => both(
            plain(seq![5u8]),
            both(
                text_field(alias, MAX_ALIAS_BYTES as int),
                both(
                    auth_field(auth),
                    both(
                        text_field(term, MAX_TERM_BYTES as int),
                        both(
                            plain(u32_bytes(columns)),
                            both(
                                plain(u32_bytes(rows)),
                                optional_field(as_user, MAX_ALIAS_BYTES as int),
                            ),
                        ),
                    ),
                ),
            ),
        ),
        ClientView::Input(bytes) => both(
            plain(seq![6u8]),
            field(bytes, OUTPUT_CHUNK_BYTES as int),
        ),
        ClientView::Resize { columns, rows } => both(
            plain(seq![7u8]),
            both(plain(u32_bytes(columns)), plain(u32_bytes(rows))),
        ),
        ClientView::Eof => Ok(seq![8u8]),
        ClientView::Shutdown => Ok(seq![9u8]),
        ClientView::JumpAuthResponse { auth } => both(plain(seq![10u8]), auth_field(auth)),
    }
}

pub open spec fn flag_bytes(value: bool) -> Seq<u8> {
    if value {
        seq![1u8]
    } else {
        seq![0u8]
    }
}

pub open spec fn count_field(n: usize) -> Result<Seq<u8>, FrameProblem> {
    if n > u32::MAX {
        Err(FrameProblem::NumberTooLarge)
    } else {
        Ok(u32_bytes(n as u32))
    }
}

/// The bytes of a frame of the daemon.
pub open spec fn server_bytes(frame: ServerView) -> Result<Seq<u8>, FrameProblem> {
    match frame {
        ServerView::Done => Ok(seq![64u8]),
        ServerView::Error(message) => both(
            plain(seq![65u8]),
            text_field(message, MAX_COMMAND_BYTES as int),
        ),
        ServerView::AuthRequired => Ok(seq![66u8]),
        ServerView::Stdout(bytes) => both(
            plain(seq![67u8]),
            field(bytes, OUTPUT_CHUNK_BYTES as int),
        ),
        ServerView::Stderr(bytes) => both(
            plain(seq![68u8]),
            field(bytes, OUTPUT_CHUNK_BYTES as int),
        ),
        ServerView::Exit(status) => both(
            plain(seq![69u8]),
            match status {
                Some(code) => plain(seq![1u8] + u32_bytes(code)),
                None => plain(seq![0u8]),
            },
        ),
        ServerView::Status {
            total_connections,
            in_use_connections,
            active_leases,
            max_connections,
            available_capacity,
        } => both(
            plain(seq![70u8]),
            both(
                plain(u64_bytes(total_connections as u64)),
                both(
                    plain(u64_bytes(in_use_connections as u64)),
                    both(
                        plain(u64_bytes(active_leases as u64)),
                        both(
                            plain(u64_bytes(max_connections as u64)),
                            plain(u64_bytes(available_capacity as u64)),
                        ),
                    ),
                ),
            ),
        ),
        ServerView::Cache { reused } => both(plain(seq![71u8]), plain(flag_bytes(reused))),
        ServerView::JumpAuthChallenge {
            index,
            total,
            attempt,
            alias,
            host,
            port,
            previous_failed,
        } => both(
            plain(seq![72u8]),
            both(
                count_field(index),
                both(
                    count_field(total),
                    both(
                        count_field(attempt),
                        both(
                            text_field(alias, MAX_ALIAS_BYTES as int),
                            both(
                                text_field(host, MAX_PATH_BYTES as int),
                                both(plain(u16_bytes(port)), plain(flag_bytes(previous_failed))),
                            ),
                        ),
                    ),
                ),
            ),
        ),
    }
}

// Values of bytes: each reader gives the value at the front and what is left.

pub open spec fn read_u8(b: Seq<u8>) -> Result<(u8, Seq<u8>), FrameProblem> {
    if b.len() < 1 {
        Err(FrameProblem::EndedEarly)
    } else {
        Ok((b[0], b.skip(1)))
    }
}

pub open spec fn read_flag(b: Seq<u8>) -> Result<(bool, Seq<u8>), FrameProblem> {
    match read_u8(b) {
        Err(e) => Err(e),
        Ok((n, rest)) => if n == 0 {
            Ok((false, rest))
        } else if n == 1 {
            Ok((true, rest))
        } else {
            Err(FrameProblem::BadFlag)
        },
    }
}

#[verifier::opaque]
pub open spec fn read_u16(b: Seq<u8>) -> Result<(u16, Seq<u8>), FrameProblem> {
    if b.len() < 2 {
        Err(FrameProblem::EndedEarly)
    } else {
        Ok(((b[0] * 256 + b[1]) as u16, b.skip(2)))
    }
}

pub open spec fn four(b: Seq<u8>) -> int {
    b[0] * 16777216 + b[1] * 65536 + b[2] * 256 + b[3]
}

#[verifier::opaque]
pub open spec fn read_u32(b: Seq<u8>) -> Result<(u32, Seq<u8>), FrameProblem> {
    if b.len() < 4 {
        Err(FrameProblem::EndedEarly)
    } else {
        Ok((four(b) as u32, b.skip(4)))
    }
}

/// A counter of eight bytes, which has to fit.
#[verifier::opaque]
pub open spec fn read_counter(b: Seq<u8>) -> Result<(usize, Seq<u8>), FrameProblem> {
    if b.len() < 8 {
        Err(FrameProblem::EndedEarly)
    } else if four(b) * 4294967296 + four(b.skip(4)) > usize::MAX {
        Err(FrameProblem::NumberTooLarge)
    } else {
        Ok(((four(b) * 4294967296 + four(b.skip(4))) as usize, b.skip(8)))
    }
}

#[verifier::opaque]
pub open spec fn read_field(b: Seq<u8>, max: int) -> Result<(Seq<u8>, Seq<u8>), FrameProblem> {
    match read_u32(b) {
        Err(e) => Err(e),
        Ok((n, rest)) => if n > max {
            Err(FrameProblem::FieldTooLong)
        } else if rest.len() < n {
            Err(FrameProblem::EndedEarly)
        } else {
            Ok((rest.take(n as int), rest.skip(n as int)))
        },
    }
}

#[verifier::opaque]
pub open spec fn read_text(b: Seq<u8>, max: int) -> Result<(Seq<char>, Seq<u8>), FrameProblem> {
    match read_field(b, max) {
        Err(e) => Err(e),
        Ok((bytes, rest)) => if vstd::utf8::valid_utf8(bytes) {
            Ok((vstd::utf8::decode_utf8(bytes), rest))
        } else {
            Err(FrameProblem::NotText)
        },
    }
}

#[verifier::opaque]
pub open spec fn read_optional(b: Seq<u8>, max: int) -> Result<
    (Option<Seq<char>>, Seq<u8>),
    FrameProblem,
> {
    match read_u8(b) {
        Err(e) => Err(e),
        Ok((n, rest)) => if n == 0 {
            Ok((None, rest))
        } else if n == 1 {
            match read_text(rest, max) {
                Err(e) => Err(e),
                Ok((t, left)) => Ok((Some(t), left)),
            }
        } else {
            Err(FrameProblem::BadFlag)
        },
    }
}

#[verifier::opaque]
pub open spec fn read_auth(b: Seq<u8>) -> Result<(Option<RequestView>, Seq<u8>), FrameProblem> {
    match read_u8(b) {
        Err(e) => Err(e),
        Ok((n, rest)) => if n == 0 {
            Ok((None, rest))
        } else if n == 1 {
            Ok((Some(RequestView::Auto), rest))
        } else if n == 2 {
            Ok((Some(RequestView::Agent), rest))
        } else if n == 3 {
            match read_text(rest, MAX_SECRET_BYTES as int) {
                Err(e) => Err(e),
                Ok((t, left)) => Ok((Some(RequestView::Password(t)), left)),
            }
        } else if n == 4 {
            match read_text(rest, MAX_SECRET_BYTES as int) {
                Err(e) => Err(e),
                Ok((t, left)) => Ok((Some(RequestView::KeyboardInteractive(t)), left)),
            }
        } else if n == 5 {
            match read_text(rest, MAX_PATH_BYTES as int) {
                Err(e) => Err(e),
                Ok((path, left)) => match read_optional(left, MAX_SECRET_BYTES as int) {
                    Err(e) => Err(e),
                    Ok((passphrase, end)) => Ok(
                        (Some(RequestView::PrivateKey { path, passphrase }), end),
                    ),
                },
            }
        } else {
            Err(FrameProblem::UnknownAuthentication)
        },
    }
}

/// The body of a request to run a command.
pub open spec fn read_exec(b: Seq<u8>) -> Result<(ClientView, Seq<u8>), FrameProblem> {
    match read_text(b, MAX_ALIAS_BYTES as int) {
        Err(e) => Err(e),
        Ok((alias, b1)) => match read_auth(b1) {
            Err(e) => Err(e),
            Ok((auth, b2)) => match read_text(b2, MAX_COMMAND_BYTES as int) {
                Err(e) => Err(e),
                Ok((command, b3)) => match read_optional(b3, MAX_ALIAS_BYTES as int) {
                    Err(e) => Err(e),
                    Ok((as_user, b4)) => Ok(
                        (ClientView::Exec { alias, auth, command, as_user }, b4),
                    ),
                },
            },
        },
    }
}

/// The body of a request for a shell.
pub open spec fn read_shell(b: Seq<u8>) -> Result<(ClientView, Seq<u8>), FrameProblem> {
    match read_text(b, MAX_ALIAS_BYTES as int) {
        Err(e) => Err(e),
        Ok((alias, b1)) => match read_auth(b1) {
            Err(e) => Err(e),
            Ok((auth, b2)) => match read_text(b2, MAX_TERM_BYTES as int) {
                Err(e) => Err(e),
                Ok((term, b3)) => match read_u32(b3) {
                    Err(e) => Err(e),
                    Ok((columns, b4)) => match read_u32(b4) {
                        Err(e) => Err(e),
                        Ok((rows, b5)) => match read_optional(b5, MAX_ALIAS_BYTES as int) {
                            Err(e) => Err(e),
                            Ok((as_user, b6)) => Ok(
                                (
                                    ClientView::Shell { alias, auth, term, columns, rows, as_user },
                                    b6,
                                ),
                            ),
                        },
                    },
                },
            },
        },
    }
}

pub open spec fn read_client_body(tag: u8, b: Seq<u8>) -> Result<
    (ClientView, Seq<u8>),
    FrameProblem,
> {
    if tag == 1 {
        Ok((ClientView::Ping, b))
    } else if tag == 2 {
        Ok((ClientView::Status, b))
    } else if tag == 3 {
        match read_text(b, MAX_ALIAS_BYTES as int) {
            Err(e) => Err(e),
            Ok((alias, rest)) => Ok((ClientView::Disconnect { alias }, rest)),
        }
    } else if tag == 4 {
        read_exec(b)
    } else if tag == 5 {
        read_shell(b)
    } else if tag == 6 {
        match read_field(b, OUTPUT_CHUNK_BYTES as int) {
            Err(e) => Err(e),
            Ok((bytes, rest)) => Ok((ClientView::Input(bytes), rest)),
        }
    } else if tag == 7 {
        match read_u32(b) {
            Err(e) => Err(e),
            Ok((columns, b1)) => match read_u32(b1) {
                Err(e) => Err(e),
                Ok((rows, b2)) => Ok((ClientView::Resize { columns, rows }, b2)),
            },
        }
    } else if tag == 8 {
        Ok((ClientView::Eof, b))
    } else if tag == 9 {
        Ok((ClientView::Shutdown, b))
    } else if tag == 10 {
        match read_auth(b) {
            Err(e) => Err(e),
            Ok((auth, rest)) => Ok((ClientView::JumpAuthResponse { auth }, rest)),
        }
    } else {
        Err(FrameProblem::UnknownTag)
    }
}

/// Nothing may be left.
pub open spec fn whole<T>(read: Result<(T, Seq<u8>), FrameProblem>) -> Result<T, FrameProblem> {
    match read {
        Err(e) => Err(e),
        Ok((value, rest)) => if rest.len() > 0 {
            Err(FrameProblem::TrailingBytes)
        } else {
            Ok(value)
        },
    }
}

/// The client's frame that the bytes stand for.
pub open spec fn client_frame(b: Seq<u8>) -> Result<ClientView, FrameProblem> {
    match read_u8(b) {
        Err(e) => Err(e),
        Ok((tag, rest)) => whole(read_client_body(tag, rest)),
    }
}

pub open spec fn read_status(b: Seq<u8>) -> Result<(ServerView, Seq<u8>), FrameProblem> {
    match read_counter(b) {
        Err(e) => Err(e),
        Ok((total_connections, b1)) => match read_counter(b1) {
            Err(e) => Err(e),
            Ok((in_use_connections, b2)) => match read_counter(b2) {
                Err(e) => Err(e),
                Ok((active_leases, b3)) => match read_counter(b3) {
                    Err(e) => Err(e),
                    Ok((max_connections, b4)) => match read_counter(b4) {
                        Err(e) => Err(e),
                        Ok((available_capacity, b5)) => Ok(
                            (
                                ServerView::Status {
                                    total_connections,
                                    in_use_connections,
                                    active_leases,
                                    max_connections,
                                    available_capacity,
                                },
                                b5,
                            ),
                        ),
                    },
                },
            },
        },
    }
}

pub open spec fn read_challenge(b: Seq<u8>) -> Result<(ServerView, Seq<u8>), FrameProblem> {
    match read_u32(b) {
        Err(e) => Err(e),
        Ok((index, b1)) => match read_u32(b1) {
            Err(e) => Err(e),
            Ok((total, b2)) => match read_u32(b2) {
                Err(e) => Err(e),
                Ok((attempt, b3)) => match read_text(b3, MAX_ALIAS_BYTES as int) {
                    Err(e) => Err(e),
                    Ok((alias, b4)) => match read_text(b4, MAX_PATH_BYTES as int) {
                        Err(e) => Err(e),
                        Ok((host, b5)) => match read_u16(b5) {
                            Err(e) => Err(e),
                            Ok((port, b6)) => match read_flag(b6) {
                                Err(e) => Err(e),
                                Ok((previous_failed, b7)) => Ok(
                                    (
                                        ServerView::JumpAuthChallenge {
                                            index: index as usize,
                                            total: total as usize,
                                            attempt: attempt as usize,
                                            alias,
                                            host,
                                            port,
                                            previous_failed,
                                        },
                                        b7,
                                    ),
                                ),
                            },
                        },
                    },
                },
            },
        },
    }
}

pub open spec fn read_exit(b: Seq<u8>) -> Result<(ServerView, Seq<u8>), FrameProblem> {
    match read_u8(b) {
        Err(e) => Err(e),
        Ok((n, rest)) => if n == 0 {
            Ok((ServerView::Exit(None), rest))
        } else if n == 1 {
            match read_u32(rest) {
                Err(e) => Err(e),
                Ok((code, left)) => Ok((ServerView::Exit(Some(code)), left)),
            }
        } else {
            Err(FrameProblem::BadFlag)
        },
    }
}

pub open spec fn read_server_body(tag: u8, b: Seq<u8>) -> Result<
    (ServerView, Seq<u8>),
    FrameProblem,
> {
    if tag == 64 {
        Ok((ServerView::Done, b))
    } else if tag == 65 {
        match read_text(b, MAX_COMMAND_BYTES as int) {
            Err(e) => Err(e),
            Ok((message, rest)) => Ok((ServerView::Error(message), rest)),
        }
    } else if tag == 66 {
        Ok((ServerView::AuthRequired, b))
    } else if tag == 67 {
        match read_field(b, OUTPUT_CHUNK_BYTES as int) {
            Err(e) => Err(e),
            Ok((bytes, rest)) => Ok((ServerView::Stdout(bytes), rest)),
        }
    } else if tag == 68 {
        match read_field(b, OUTPUT_CHUNK_BYTES as int) {
            Err(e) => Err(e),
            Ok((bytes, rest)) => Ok((ServerView::Stderr(bytes), rest)),
        }
    } else if tag == 69 {
        read_exit(b)
    } else if tag == 70 {
        read_status(b)
    } else if tag == 71 {
        match read_flag(b) {
            Err(e) => Err(e),
            Ok((reused, rest)) => Ok((ServerView::Cache { reused }, rest)),
        }
    } else if tag == 72 {
        read_challenge(b)
    } else {
        Err(FrameProblem::UnknownTag)
    }
}

/// The daemon's frame that the bytes stand for.
pub open spec fn server_frame(b: Seq<u8>) -> Result<ServerView, FrameProblem> {
    match read_u8(b) {
        Err(e) => Err(e),
        Ok((tag, rest)) => whole(read_server_body(tag, rest)),
    }
}

// Writing.

fn put_slice(out: &mut Vec<u8>, bytes: &[u8])
    ensures
        final(out)@ == old(out)@ + bytes@,
{
    let ghost before = out@;
    let mut i: usize = 0;
    while i < bytes.len()
        invariant
            i <= bytes@.len(),
            out@ == before + bytes@.take(i as int),
        decreases bytes@.len() - i,
    {
        out.push(bytes[i]);
        assert(out@ =~= before + bytes@.take(i + 1));
        i += 1;
    }
    assert(bytes@.take(bytes@.len() as int) =~= bytes@);
}

fn put_u16(out: &mut Vec<u8>, value: u16)
    ensures
        final(out)@ == old(out)@ + u16_bytes(value),
{
    proof {
        reveal(u16_bytes);
    }
    out.push((value / 256) as u8);
    out.push((value % 256) as u8);
    assert(out@ =~= old(out)@ + u16_bytes(value));
}

fn put_u32(out: &mut Vec<u8>, value: u32)
    ensures
        final(out)@ == old(out)@ + u32_bytes(value),
{
    proof {
        reveal(u32_bytes);
    }
    out.push((value / 16777216) as u8);
    out.push(((value / 65536) % 256) as u8);
    out.push(((value / 256) % 256) as u8);
    out.push((value % 256) as u8);
    assert(out@ =~= old(out)@ + u32_bytes(value));
}

fn put_u64(out: &mut Vec<u8>, value: u64)
    ensures
        final(out)@ == old(out)@ + u64_bytes(value),
{
    proof {
        reveal(u64_bytes);
    }
    put_u32(out, (value / 4294967296) as u32);
    put_u32(out, (value % 4294967296) as u32);
    assert(out@ =~= old(out)@ + u64_bytes(value));
}

/// A piece was written, or could not be.
pub open spec fn wrote(
    before: Seq<u8>,
    after: Seq<u8>,
    r: Result<(), FrameProblem>,
    piece: Result<Seq<u8>, FrameProblem>,
) -> bool {
    match r {
        Ok(()) => piece matches Ok(bytes) && after == before + bytes,
        Err(e) => piece == Err::<Seq<u8>, FrameProblem>(e),
    }
}

fn put_bytes(out: &mut Vec<u8>, bytes: &[u8], max: usize) -> (r: Result<(), FrameProblem>)
    requires
        max <= MAX_FRAME_BYTES,
    ensures
        wrote(old(out)@, final(out)@, r, field(bytes@, max as int)),
{
    proof {
        reveal(field);
    }
    if bytes.len() > max {
        return Err(FrameProblem::FieldTooLong);
    }
    put_u32(out, bytes.len() as u32);
    put_slice(out, bytes);
    assert(out@ =~= old(out)@ + (u32_bytes(bytes@.len() as u32) + bytes@));
    Ok(())
}

fn put_string(out: &mut Vec<u8>, value: &str, max: usize) -> (r: Result<(), FrameProblem>)
    requires
        max <= MAX_FRAME_BYTES,
    ensures
        wrote(old(out)@, final(out)@, r, text_field(value@, max as int)),
{
    proof {
        reveal(text_field);
    }
    put_bytes(out, value.as_bytes(), max)
}

fn put_optional_string(out: &mut Vec<u8>, value: &Option<String>, max: usize) -> (r: Result<
    (),
    FrameProblem,
>)
    requires
        max <= MAX_FRAME_BYTES,
    ensures
        wrote(
            old(out)@,
            final(out)@,
            r,
            optional_field(crate::model::option_view(*value), max as int),
        ),
{
    proof {
        reveal(optional_field);
    }
    match value {
        None => {
            out.push(0);
            assert(out@ =~= old(out)@ + seq![0u8]);
            Ok(())
        },
        Some(text) => {
            out.push(1);
            put_string(out, text.as_str(), max)?;
            proof {
                let piece = text_field(text@, max as int)->Ok_0;
                assert(out@ =~= old(out)@ + (seq![1u8] + piece));
            }
            Ok(())
        },
    }
}

fn put_auth(out: &mut Vec<u8>, auth: &Option<AuthRequest>) -> (r: Result<(), FrameProblem>)
    ensures
        wrote(old(out)@, final(out)@, r, auth_field(request_view(*auth))),
{
    proof {
        reveal(auth_field);
    }
    match auth {
        None => {
            out.push(0);
            assert(out@ =~= old(out)@ + seq![0u8]);
        },
        Some(AuthRequest::Auto) => {
            out.push(1);
            assert(out@ =~= old(out)@ + seq![1u8]);
        },
        Some(AuthRequest::Agent) => {
            out.push(2);
            assert(out@ =~= old(out)@ + seq![2u8]);
        },
        Some(AuthRequest::Password(secret)) => {
            out.push(3);
            put_string(out, secret.as_str(), MAX_SECRET_BYTES)?;
            proof {
                let piece = text_field(secret@, MAX_SECRET_BYTES as int)->Ok_0;
                assert(out@ =~= old(out)@ + (seq![3u8] + piece));
            }
        },
        Some(AuthRequest::KeyboardInteractive(secret)) => {
            out.push(4);
            put_string(out, secret.as_str(), MAX_SECRET_BYTES)?;
            proof {
                let piece = text_field(secret@, MAX_SECRET_BYTES as int)->Ok_0;
                assert(out@ =~= old(out)@ + (seq![4u8] + piece));
            }
        },
        Some(AuthRequest::PrivateKey { path, passphrase }) => {
            out.push(5);
            put_string(out, path.as_str(), MAX_PATH_BYTES)?;
            put_optional_string(out, passphrase, MAX_SECRET_BYTES)?;
            proof {
                let a = text_field(path@, MAX_PATH_BYTES as int)->Ok_0;
                let b = optional_field(
                    crate::model::option_view(*passphrase),
                    MAX_SECRET_BYTES as int,
                )->Ok_0;
                assert(out@ =~= old(out)@ + (seq![5u8] + (a + b)));
            }
        },
    }
    Ok(())
}

/// Writes a client's frame.
pub fn encode_client(frame: &ClientFrame) -> (r: Result<Vec<u8>, FrameProblem>)
    ensures
        match r {
            Ok(bytes) => client_bytes(frame@) == Ok::<Seq<u8>, FrameProblem>(bytes@),
            Err(e) => client_bytes(frame@) == Err::<Seq<u8>, FrameProblem>(e),
        },
{
    let mut out: Vec<u8> = Vec::new();
    match frame {
        ClientFrame::Ping => {
            out.push(1);
            assert(out@ =~= seq![1u8]);
        },
        ClientFrame::Status => {
            out.push(2);
            assert(out@ =~= seq![2u8]);
        },
        ClientFrame::Disconnect { alias } => {
            out.push(3);
            put_string(&mut out, alias.as_str(), MAX_ALIAS_BYTES)?;
            assert(out@ =~= seq![3u8] + text_field(alias@, MAX_ALIAS_BYTES as int)->Ok_0);
        },
        ClientFrame::Exec { alias, auth, command, as_user } => {
            out.push(4);
            put_string(&mut out, alias.as_str(), MAX_ALIAS_BYTES)?;
            put_auth(&mut out, auth)?;
            put_string(&mut out, command.as_str(), MAX_COMMAND_BYTES)?;
            put_optional_string(&mut out, as_user, MAX_ALIAS_BYTES)?;
            proof {
                let a = text_field(alias@, MAX_ALIAS_BYTES as int)->Ok_0;
                let b = auth_field(request_view(*auth))->Ok_0;
                let c = text_field(command@, MAX_COMMAND_BYTES as int)->Ok_0;
                let d = optional_field(
                    crate::model::option_view(*as_user),
                    MAX_ALIAS_BYTES as int,
                )->Ok_0;
                assert(out@ =~= seq![4u8] + (a + (b + (c + d))));
            }
        },
        ClientFrame::Shell { alias, auth, term, columns, rows, as_user } => {
            out.push(5);
            put_string(&mut out, alias.as_str(), MAX_ALIAS_BYTES)?;
            put_auth(&mut out, auth)?;
            put_string(&mut out, term.as_str(), MAX_TERM_BYTES)?;
            put_u32(&mut out, *columns);
            put_u32(&mut out, *rows);
            put_optional_string(&mut out, as_user, MAX_ALIAS_BYTES)?;
            proof {
                let a = text_field(alias@, MAX_ALIAS_BYTES as int)->Ok_0;
                let b = auth_field(request_view(*auth))->Ok_0;
                let c = text_field(term@, MAX_TERM_BYTES as int)->Ok_0;
                let x = u32_bytes(*columns);
                let y = u32_bytes(*rows);
                let d = optional_field(
                    crate::model::option_view(*as_user),
                    MAX_ALIAS_BYTES as int,
                )->Ok_0;
                assert(out@ =~= seq![5u8] + (a + (b + (c + (x + (y + d))))));
            }
        },
        ClientFrame::Input(bytes) => {
            out.push(6);
            put_bytes(&mut out, bytes.as_slice(), OUTPUT_CHUNK_BYTES)?;
            assert(out@ =~= seq![6u8] + field(bytes@, OUTPUT_CHUNK_BYTES as int)->Ok_0);
        },
        ClientFrame::Resize { columns, rows } => {
            out.push(7);
            put_u32(&mut out, *columns);
            put_u32(&mut out, *rows);
            assert(out@ =~= seq![7u8] + (u32_bytes(*columns) + u32_bytes(*rows)));
        },
        ClientFrame::Eof => {
            out.push(8);
            assert(out@ =~= seq![8u8]);
        },
        ClientFrame::Shutdown => {
            out.push(9);
            assert(out@ =~= seq![9u8]);
        },
        ClientFrame::JumpAuthResponse { auth } => {
            out.push(10);
            put_auth(&mut out, auth)?;
            assert(out@ =~= seq![10u8] + auth_field(request_view(*auth))->Ok_0);
        },
    }
    Ok(out)
}

fn put_count(out: &mut Vec<u8>, value: usize) -> (r: Result<(), FrameProblem>)
    ensures
        wrote(old(out)@, final(out)@, r, count_field(value)),
{
    if value as u64 > 4294967295 {
        return Err(FrameProblem::NumberTooLarge);
    }
    put_u32(out, value as u32);
    Ok(())
}

fn put_flag(out: &mut Vec<u8>, value: bool)
    ensures
        final(out)@ == old(out)@ + flag_bytes(value),
{
    if value {
        out.push(1);
    } else {
        out.push(0);
    }
    assert(out@ =~= old(out)@ + flag_bytes(value));
}

/// Writes a frame of the daemon.
pub fn encode_server(frame: &ServerFrame) -> (r: Result<Vec<u8>, FrameProblem>)
    ensures
        match r {
            Ok(bytes) => server_bytes(frame@) == Ok::<Seq<u8>, FrameProblem>(bytes@),
            Err(e) => server_bytes(frame@) == Err::<Seq<u8>, FrameProblem>(e),
        },
{
    let mut out: Vec<u8> = Vec::new();
    match frame {
        ServerFrame::Done => {
            out.push(64);
            assert(out@ =~= seq![64u8]);
        },
        ServerFrame::Error(message) => {
            out.push(65);
            put_string(&mut out, message.as_str(), MAX_COMMAND_BYTES)?;
            assert(out@ =~= seq![65u8] + text_field(message@, MAX_COMMAND_BYTES as int)->Ok_0);
        },
        ServerFrame::AuthRequired => {
            out.push(66);
            assert(out@ =~= seq![66u8]);
        },
        ServerFrame::Stdout(bytes) => {
            out.push(67);
            put_bytes(&mut out, bytes.as_slice(), OUTPUT_CHUNK_BYTES)?;
            assert(out@ =~= seq![67u8] + field(bytes@, OUTPUT_CHUNK_BYTES as int)->Ok_0);
        },
        ServerFrame::Stderr(bytes) => {
            out.push(68);
            put_bytes(&mut out, bytes.as_slice(), OUTPUT_CHUNK_BYTES)?;
            assert(out@ =~= seq![68u8] + field(bytes@, OUTPUT_CHUNK_BYTES as int)->Ok_0);
        },
        ServerFrame::Exit(status) => {
            out.push(69);
            match status {
                Some(code) => {
                    out.push(1);
                    put_u32(&mut out, *code);
                    assert(out@ =~= seq![69u8] + (seq![1u8] + u32_bytes(*code)));
                },
                None => {
                    out.push(0);
                    assert(out@ =~= seq![69u8] + seq![0u8]);
                },
            }
        },
        ServerFrame::Status {
            total_connections,
            in_use_connections,
            active_leases,
            max_connections,
            available_capacity,
        } => {
            out.push(70);
            put_u64(&mut out, *total_connections as u64);
            put_u64(&mut out, *in_use_connections as u64);
            put_u64(&mut out, *active_leases as u64);
            put_u64(&mut out, *max_connections as u64);
            put_u64(&mut out, *available_capacity as u64);
            proof {
                let a = u64_bytes(*total_connections as u64);
                let b = u64_bytes(*in_use_connections as u64);
                let c = u64_bytes(*active_leases as u64);
                let d = u64_bytes(*max_connections as u64);
                let e = u64_bytes(*available_capacity as u64);
                assert(out@ =~= seq![70u8] + (a + (b + (c + (d + e)))));
            }
        },
        ServerFrame::Cache { reused } => {
            out.push(71);
            put_flag(&mut out, *reused);
            assert(out@ =~= seq![71u8] + flag_bytes(*reused));
        },
        ServerFrame::JumpAuthChallenge {
            index,
            total,
            attempt,
            alias,
            host,
            port,
            previous_failed,
        } => {
            out.push(72);
            put_count(&mut out, *index)?;
            put_count(&mut out, *total)?;
            put_count(&mut out, *attempt)?;
            put_string(&mut out, alias.as_str(), MAX_ALIAS_BYTES)?;
            put_string(&mut out, host.as_str(), MAX_PATH_BYTES)?;
            put_u16(&mut out, *port);
            put_flag(&mut out, *previous_failed);
            proof {
                let a = u32_bytes(*index as u32);
                let b = u32_bytes(*total as u32);
                let c = u32_bytes(*attempt as u32);
                let d = text_field(alias@, MAX_ALIAS_BYTES as int)->Ok_0;
                let e = text_field(host@, MAX_PATH_BYTES as int)->Ok_0;
                let f = u16_bytes(*port);
                let g = flag_bytes(*previous_failed);
                assert(out@ =~= seq![72u8] + (a + (b + (c + (d + (e + (f + g)))))));
            }
        },
    }
    Ok(out)
}

// Reading.

/// Bytes that are being read.
struct Cursor<'a> {
    bytes: &'a [u8],
    offset: usize,
}

/// A value was read, and the rest is left.
spec fn took<T>(
    r: Result<T, FrameProblem>,
    left: Seq<u8>,
    read: Result<(T, Seq<u8>), FrameProblem>,
) -> bool {
    match r {
        Ok(value) => read == Ok::<(T, Seq<u8>), FrameProblem>((value, left)),
        Err(e) => read == Err::<(T, Seq<u8>), FrameProblem>(e),
    }
}

impl<'a> Cursor<'a> {
    spec fn wf(&self) -> bool {
        self.offset <= self.bytes@.len()
    }

    spec fn left(&self) -> Seq<u8> {
        self.bytes@.skip(self.offset as int)
    }

    fn u8(&mut self) -> (r: Result<u8, FrameProblem>)
        requires
            old(self).wf(),
        ensures
            final(self).wf(),
            took(r, final(self).left(), read_u8(old(self).left())),
    {
        if self.offset >= self.bytes.len() {
            return Err(FrameProblem::EndedEarly);
        }
        let value = self.bytes[self.offset];
        self.offset += 1;
        assert(self.left() =~= old(self).left().skip(1));
        Ok(value)
    }

    fn bool(&mut self) -> (r: Result<bool, FrameProblem>)
        requires
            old(self).wf(),
        ensures
            final(self).wf(),
            took(r, final(self).left(), read_flag(old(self).left())),
    {
        let n = self.u8()?;
        if n == 0 {
            Ok(false)
        } else if n == 1 {
            Ok(true)
        } else {
            Err(FrameProblem::BadFlag)
        }
    }

    fn u16(&mut self) -> (r: Result<u16, FrameProblem>)
        requires
            old(self).wf(),
        ensures
            final(self).wf(),
            took(r, final(self).left(), read_u16(old(self).left())),
    {
        proof {
            reveal(read_u16);
        }
        if self.bytes.len() - self.offset < 2 {
            return Err(FrameProblem::EndedEarly);
        }
        let value = self.bytes[self.offset] as u16 * 256 + self.bytes[self.offset + 1] as u16;
        self.offset += 2;
        assert(self.left() =~= old(self).left().skip(2));
        Ok(value)
    }

    fn u32(&mut self) -> (r: Result<u32, FrameProblem>)
        requires
            old(self).wf(),
        ensures
            final(self).wf(),
            took(r, final(self).left(), read_u32(old(self).left())),
    {
        proof {
            reveal(read_u32);
        }
        if self.bytes.len() - self.offset < 4 {
            return Err(FrameProblem::EndedEarly);
        }
        let i = self.offset;
        let value = self.bytes[i] as u32 * 16777216 + self.bytes[i + 1] as u32 * 65536
            + self.bytes[i + 2] as u32 * 256 + self.bytes[i + 3] as u32;
        self.offset += 4;
        assert(self.left() =~= old(self).left().skip(4));
        Ok(value)
    }

    fn counter(&mut self) -> (r: Result<usize, FrameProblem>)
        requires
            old(self).wf(),
        ensures
            final(self).wf(),
            took(r, final(self).left(), read_counter(old(self).left())),
    {
        proof {
            reveal(read_counter);
            reveal(read_u32);
        }
        if self.bytes.len() - self.offset < 8 {
            return Err(FrameProblem::EndedEarly);
        }
        let ghost before = self.left();
        let high = self.u32()?;
        let low = self.u32()?;
        let value = high as u64 * 4294967296 + low as u64;
        assert(self.left() =~= before.skip(8));
        if value > usize::MAX as u64 {
            return Err(FrameProblem::NumberTooLarge);
        }
        Ok(value as usize)
    }

    fn bytes(&mut self, max: usize) -> (r: Result<Vec<u8>, FrameProblem>)
        requires
            old(self).wf(),
        ensures
            final(self).wf(),
            match r {
                Ok(v) => read_field(old(self).left(), max as int) == Ok::<
                    (Seq<u8>, Seq<u8>),
                    FrameProblem,
                >((v@, final(self).left())),
                Err(e) => read_field(old(self).left(), max as int) == Err::<
                    (Seq<u8>, Seq<u8>),
                    FrameProblem,
                >(e),
            },
    {
        proof {
            reveal(read_field);
        }
        let n = self.u32()?;
        if n as u64 > max as u64 {
            return Err(FrameProblem::FieldTooLong);
        }
        let length = n as usize;
        if self.bytes.len() - self.offset < length {
            return Err(FrameProblem::EndedEarly);
        }
        let ghost rest = self.left();
        let part = vstd::slice::slice_subrange(self.bytes, self.offset, self.offset + length);
        let mut out: Vec<u8> = Vec::new();
        put_slice(&mut out, part);
        self.offset += length;
        assert(out@ =~= rest.take(length as int));
        assert(self.left() =~= rest.skip(length as int));
        Ok(out)
    }

    fn string(&mut self, max: usize) -> (r: Result<String, FrameProblem>)
        requires
            old(self).wf(),
        ensures
            final(self).wf(),
            match r {
                Ok(t) => read_text(old(self).left(), max as int) == Ok::<
                    (Seq<char>, Seq<u8>),
                    FrameProblem,
                >((t@, final(self).left())),
                Err(e) => read_text(old(self).left(), max as int) == Err::<
                    (Seq<char>, Seq<u8>),
                    FrameProblem,
                >(e),
            },
    {
        proof {
            reveal(read_text);
        }
        let bytes = self.bytes(max)?;
        match text_from_utf8(bytes.as_slice()) {
            Some(text) => Ok(text),
            None => Err(FrameProblem::NotText),
        }
    }

    fn optional_string(&mut self, max: usize) -> (r: Result<Option<String>, FrameProblem>)
        requires
            old(self).wf(),
        ensures
            final(self).wf(),
            match r {
                Ok(t) => read_optional(old(self).left(), max as int) == Ok::<
                    (Option<Seq<char>>, Seq<u8>),
                    FrameProblem,
                >((crate::model::option_view(t), final(self).left())),
                Err(e) => read_optional(old(self).left(), max as int) == Err::<
                    (Option<Seq<char>>, Seq<u8>),
                    FrameProblem,
                >(e),
            },
    {
        proof {
            reveal(read_optional);
        }
        let n = self.u8()?;
        if n == 0 {
            Ok(None)
        } else if n == 1 {
            let text = self.string(max)?;
            Ok(Some(text))
        } else {
            Err(FrameProblem::BadFlag)
        }
    }

    fn auth(&mut self) -> (r: Result<Option<AuthRequest>, FrameProblem>)
        requires
            old(self).wf(),
        ensures
            final(self).wf(),
            match r {
                Ok(a) => read_auth(old(self).left()) == Ok::<
                    (Option<RequestView>, Seq<u8>),
                    FrameProblem,
                >((request_view(a), final(self).left())),
                Err(e) => read_auth(old(self).left()) == Err::<
                    (Option<RequestView>, Seq<u8>),
                    FrameProblem,
                >(e),
            },
    {
        proof {
            reveal(read_auth);
        }
        let n = self.u8()?;
        if n == 0 {
            Ok(None)
        } else if n == 1 {
            Ok(Some(AuthRequest::Auto))
        } else if n == 2 {
            Ok(Some(AuthRequest::Agent))
        } else if n == 3 {
            let secret = self.string(MAX_SECRET_BYTES)?;
            Ok(Some(AuthRequest::Password(secret)))
        } else if n == 4 {
            let secret = self.string(MAX_SECRET_BYTES)?;
            Ok(Some(AuthRequest::KeyboardInteractive(secret)))
        } else if n == 5 {
            let path = self.string(MAX_PATH_BYTES)?;
            let passphrase = self.optional_string(MAX_SECRET_BYTES)?;
            Ok(Some(AuthRequest::PrivateKey { path, passphrase }))
        } else {
            Err(FrameProblem::UnknownAuthentication)
        }
    }

    fn client_body(&mut self, tag: u8) -> (r: Result<ClientFrame, FrameProblem>)
        requires
            old(self).wf(),
        ensures
            final(self).wf(),
            match r {
                Ok(f) => read_client_body(tag, old(self).left()) == Ok::<
                    (ClientView, Seq<u8>),
                    FrameProblem,
                >((f@, final(self).left())),
                Err(e) => read_client_body(tag, old(self).left()) == Err::<
                    (ClientView, Seq<u8>),
                    FrameProblem,
                >(e),
            },
    {
        if tag == 1 {
            Ok(ClientFrame::Ping)
        } else if tag == 2 {
            Ok(ClientFrame::Status)
        } else if tag == 3 {
            let alias = self.string(MAX_ALIAS_BYTES)?;
            Ok(ClientFrame::Disconnect { alias })
        } else if tag == 4 {
            let alias = self.string(MAX_ALIAS_BYTES)?;
            let auth = self.auth()?;
            let command = self.string(MAX_COMMAND_BYTES)?;
            let as_user = self.optional_string(MAX_ALIAS_BYTES)?;
            Ok(ClientFrame::Exec { alias, auth, command, as_user })
        } else if tag == 5 {
            let alias = self.string(MAX_ALIAS_BYTES)?;
            let auth = self.auth()?;
            let term = self.string(MAX_TERM_BYTES)?;
            let columns = self.u32()?;
            let rows = self.u32()?;
            let as_user = self.optional_string(MAX_ALIAS_BYTES)?;
            Ok(ClientFrame::Shell { alias, auth, term, columns, rows, as_user })
        } else if tag == 6 {
            let bytes = self.bytes(OUTPUT_CHUNK_BYTES)?;
            Ok(ClientFrame::Input(bytes))
        } else if tag == 7 {
            let columns = self.u32()?;
            let rows = self.u32()?;
            Ok(ClientFrame::Resize { columns, rows })
        } else if tag == 8 {
            Ok(ClientFrame::Eof)
        } else if tag == 9 {
            Ok(ClientFrame::Shutdown)
        } else if tag == 10 {
            let auth = self.auth()?;
            Ok(ClientFrame::JumpAuthResponse { auth })
        } else {
            Err(FrameProblem::UnknownTag)
        }
    }

    fn server_body(&mut self, tag: u8) -> (r: Result<ServerFrame, FrameProblem>)
        requires
            old(self).wf(),
        ensures
            final(self).wf(),
            match r {
                Ok(f) => read_server_body(tag, old(self).left()) == Ok::<
                    (ServerView, Seq<u8>),
                    FrameProblem,
                >((f@, final(self).left())),
                Err(e) => read_server_body(tag, old(self).left()) == Err::<
                    (ServerView, Seq<u8>),
                    FrameProblem,
                >(e),
            },
    {
        if tag == 64 {
            Ok(ServerFrame::Done)
        } else if tag == 65 {
            let message = self.string(MAX_COMMAND_BYTES)?;
            Ok(ServerFrame::Error(message))
        } else if tag == 66 {
            Ok(ServerFrame::AuthRequired)
        } else if tag == 67 {
            let bytes = self.bytes(OUTPUT_CHUNK_BYTES)?;
            Ok(ServerFrame::Stdout(bytes))
        } else if tag == 68 {
            let bytes = self.bytes(OUTPUT_CHUNK_BYTES)?;
            Ok(ServerFrame::Stderr(bytes))
        } else if tag == 69 {
            let n = self.u8()?;
            if n == 0 {
                Ok(ServerFrame::Exit(None))
            } else if n == 1 {
                let code = self.u32()?;
                Ok(ServerFrame::Exit(Some(code)))
            } else {
                Err(FrameProblem::BadFlag)
            }
        } else if tag == 70 {
            let total_connections = self.counter()?;
            let in_use_connections = self.counter()?;
            let active_leases = self.counter()?;
            let max_connections = self.counter()?;
            let available_capacity = self.counter()?;
            Ok(
                ServerFrame::Status {
                    total_connections,
                    in_use_connections,
                    active_leases,
                    max_connections,
                    available_capacity,
                },
            )
        } else if tag == 71 {
            let reused = self.bool()?;
            Ok(ServerFrame::Cache { reused })
        } else if tag == 72 {
            let index = self.u32()?;
            let total = self.u32()?;
            let attempt = self.u32()?;
            let alias = self.string(MAX_ALIAS_BYTES)?;
            let host = self.string(MAX_PATH_BYTES)?;
            let port = self.u16()?;
            let previous_failed = self.bool()?;
            Ok(
                ServerFrame::JumpAuthChallenge {
                    index: index as usize,
                    total: total as usize,
                    attempt: attempt as usize,
                    alias,
                    host,
                    port,
                    previous_failed,
                },
            )
        } else {
            Err(FrameProblem::UnknownTag)
        }
    }
}

/// Reads a client's frame.
pub fn decode_client(payload: &[u8]) -> (r: Result<ClientFrame, FrameProblem>)
    ensures
        match r {
            Ok(f) => client_frame(payload@) == Ok::<ClientView, FrameProblem>(f@),
            Err(e) => client_frame(payload@) == Err::<ClientView, FrameProblem>(e),
        },
{
    let mut cursor = Cursor { bytes: payload, offset: 0 };
    assert(cursor.left() =~= payload@);
    let tag = cursor.u8()?;
    let frame = cursor.client_body(tag)?;
    if cursor.offset != cursor.bytes.len() {
        return Err(FrameProblem::TrailingBytes);
    }
    Ok(frame)
}

/// Reads a frame of the daemon.
pub fn decode_server(payload: &[u8]) -> (r: Result<ServerFrame, FrameProblem>)
    ensures
        match r {
            Ok(f) => server_frame(payload@) == Ok::<ServerView, FrameProblem>(f@),
            Err(e) => server_frame(payload@) == Err::<ServerView, FrameProblem>(e),
        },
{
    let mut cursor = Cursor { bytes: payload, offset: 0 };
    assert(cursor.left() =~= payload@);
    let tag = cursor.u8()?;
    let frame = cursor.server_body(tag)?;
    if cursor.offset != cursor.bytes.len() {
        return Err(FrameProblem::TrailingBytes);
    }
    Ok(frame)
}

/// How many bytes a payload has, as the four bytes before it say.
pub open spec fn announced(header: Seq<u8>) -> Result<int, FrameProblem> {
    if four(header) < 1 || four(header) > MAX_FRAME_BYTES {
        Err(FrameProblem::BadLength)
    } else {
        Ok(four(header))
    }
}

pub fn payload_length(header: &[u8; 4]) -> (r: Result<usize, FrameProblem>)
    ensures
        match r {
            Ok(n) => announced(header@) == Ok::<int, FrameProblem>(n as int),
            Err(e) => announced(header@) == Err::<int, FrameProblem>(e),
        },
{
    let n = header[0] as u32 * 16777216 + header[1] as u32 * 65536 + header[2] as u32 * 256
        + header[3] as u32;
    if n < 1 || n > 1048576 {
        return Err(FrameProblem::BadLength);
    }
    Ok(n as usize)
}

/// A payload with its length before it.
pub open spec fn framed(payload: Seq<u8>) -> Result<Seq<u8>, FrameProblem> {
    if payload.len() < 1 || payload.len() > MAX_FRAME_BYTES {
        Err(FrameProblem::BadLength)
    } else {
        Ok(u32_bytes(payload.len() as u32) + payload)
    }
}

pub fn frame_payload(payload: &[u8]) -> (r: Result<Vec<u8>, FrameProblem>)
    ensures
        match r {
            Ok(bytes) => framed(payload@) == Ok::<Seq<u8>, FrameProblem>(bytes@),
            Err(e) => framed(payload@) == Err::<Seq<u8>, FrameProblem>(e),
        },
{
    if payload.len() < 1 || payload.len() > MAX_FRAME_BYTES {
        return Err(FrameProblem::BadLength);
    }
    let mut out: Vec<u8> = Vec::new();
    put_u32(&mut out, payload.len() as u32);
    put_slice(&mut out, payload);
    assert(out@ =~= u32_bytes(payload@.len() as u32) + payload@);
    Ok(out)
}

} // verus!
