//! What a client of the daemon makes of its answers.

use vstd::prelude::*;
use vstd::string::*;

use crate::endpoint::is_endpoint_unavailable;
use crate::endpoint::IoErrorKind;
use crate::protocol::AuthRequest;
use crate::protocol::ClientFrame;
use crate::protocol::ServerFrame;

verus! {

#[derive(Debug, Clone, Copy, PartialEq, Eq, Structural)]
pub struct DaemonStatus {
    pub total_connections: usize,
    pub in_use_connections: usize,
    pub active_leases: usize,
    pub max_connections: usize,
    pub available_capacity: usize,
}

#[derive(Debug, Clone, Copy, PartialEq, Eq, Structural)]
pub enum DaemonExecOutcome {
    AuthRequired,
    Completed { exit_status: Option<u32>, reused: bool },
}

#[derive(Debug, Clone, Copy, PartialEq, Eq, Structural)]
pub enum DaemonShellOutcome {
    AuthRequired,
    Completed { exit_status: Option<u32>, reused: bool },
}

/// A question for the credentials of a jump host.
#[derive(Debug, Clone, PartialEq, Eq)]
pub struct DaemonJumpAuthChallenge {
    pub index: usize,
    pub total: usize,
    pub attempt: usize,
    pub alias: String,
    pub host: String,
    pub port: u16,
    pub previous_failed: bool,
}

impl DaemonJumpAuthChallenge {
    /// The question asks what the frame asks.
    pub open spec fn asks(&self, frame: ServerFrame) -> bool {
        frame@ == (crate::protocol::ServerView::JumpAuthChallenge {
            index: self.index,
            total: self.total,
            attempt: self.attempt,
            alias: self.alias@,
            host: self.host@,
            port: self.port,
            previous_failed: self.previous_failed,
        })
    }
}

/// Supplies credentials for a jump host. `None` gives up on it.
pub trait DaemonJumpAuthProvider {
    fn authentication(&mut self, challenge: DaemonJumpAuthChallenge) -> (r: Option<AuthRequest>);
}

#[derive(Debug, Clone, Copy, PartialEq, Eq, Structural)]
pub enum DaemonProblem {
    /// The daemon reports an error, with a message.
    Failed,
    /// An answer to another question.
    Unexpected,
    /// The daemon is gone before the end.
    Closed,
    /// Authentication is asked for after output has begun.
    LateAuthentication,
    LateJumpAuthentication,
}

/// An answer that ends an operation without success.
#[derive(Debug, PartialEq, Eq)]
pub struct DaemonError {
    pub problem: DaemonProblem,
    pub message: String,
}

#[verifier::ext_equal]
pub struct DaemonFault {
    pub problem: DaemonProblem,
    pub message: Seq<char>,
}

impl View for DaemonError {
    type V = DaemonFault;

    open spec fn view(&self) -> DaemonFault {
        DaemonFault { problem: self.problem, message: self.message@ }
    }
}

pub open spec fn daemon_fault(problem: DaemonProblem) -> DaemonFault {
    DaemonFault { problem, message: ""@ }
}

fn daemon_error(problem: DaemonProblem) -> (r: DaemonError)
    ensures
        r@ == daemon_fault(problem),
{
    DaemonError { problem, message: "".to_owned() }
}

/// What goes wrong with an answer that should have been another.
pub open spec fn wrong_answer(reply: Option<ServerFrame>) -> DaemonFault {
    match reply {
        Some(ServerFrame::Error(message)) => DaemonFault {
            problem: DaemonProblem::Failed,
            message: message@,
        },
        _ => daemon_fault(DaemonProblem::Unexpected),
    }
}

fn refuse(reply: Option<ServerFrame>) -> (r: DaemonError)
    ensures
        r@ == wrong_answer(reply),
{
    match reply {
        Some(ServerFrame::Error(message)) => DaemonError {
            problem: DaemonProblem::Failed,
            message,
        },
        _ => daemon_error(DaemonProblem::Unexpected),
    }
}

fn expect_done(reply: Option<ServerFrame>) -> (r: Result<(), DaemonError>)
    ensures
        match r {
            Ok(()) => reply == Some(ServerFrame::Done),
            Err(e) => reply != Some(ServerFrame::Done) && e@ == wrong_answer(reply),
        },
{
    match reply {
        Some(ServerFrame::Done) => Ok(()),
        other => Err(refuse(other)),
    }
}

/// The operations of a client: what is sent first, and what the first answer
/// means.
#[derive(Debug)]
pub struct DaemonClient;

impl DaemonClient {
    /// What the answer to a ping means.
    pub fn ping(reply: Option<ServerFrame>) -> (r: Result<(), DaemonError>)
        ensures
            match r {
                Ok(()) => reply == Some(ServerFrame::Done),
                Err(e) => reply != Some(ServerFrame::Done) && e@ == wrong_answer(reply),
            },
    {
        expect_done(reply)
    }

    /// What the answer to a question for the status means.
    pub fn status(reply: Option<ServerFrame>) -> (r: Result<DaemonStatus, DaemonError>)
        ensures
            match r {
                Ok(s) => reply == Some(
                    ServerFrame::Status {
                        total_connections: s.total_connections,
                        in_use_connections: s.in_use_connections,
                        active_leases: s.active_leases,
                        max_connections: s.max_connections,
                        available_capacity: s.available_capacity,
                    },
                ),
                Err(e) => !(reply matches Some(ServerFrame::Status { .. })) && e@ == wrong_answer(
                    reply,
                ),
            },
    {
        match reply {
            Some(
                ServerFrame::Status {
                    total_connections,
                    in_use_connections,
                    active_leases,
                    max_connections,
                    available_capacity,
                },
            ) => Ok(
                DaemonStatus {
                    total_connections,
                    in_use_connections,
                    active_leases,
                    max_connections,
                    available_capacity,
                },
            ),
            other => Err(refuse(other)),
        }
    }

    /// What the answer to a request to disconnect means.
    pub fn disconnect(reply: Option<ServerFrame>) -> (r: Result<(), DaemonError>)
        ensures
            match r {
                Ok(()) => reply == Some(ServerFrame::Done),
                Err(e) => reply != Some(ServerFrame::Done) && e@ == wrong_answer(reply),
            },
    {
        expect_done(reply)
    }

    /// What the answer to a request to shut down means.
    pub fn shutdown(reply: Option<ServerFrame>) -> (r: Result<(), DaemonError>)
        ensures
            match r {
                Ok(()) => reply == Some(ServerFrame::Done),
                Err(e) => reply != Some(ServerFrame::Done) && e@ == wrong_answer(reply),
            },
    {
        expect_done(reply)
    }

    /// The request to run a command.
    pub fn exec(
        alias: &str,
        auth: Option<AuthRequest>,
        command: &str,
        as_user: Option<&str>,
    ) -> (r: ClientFrame)
        ensures
            r@ == (crate::protocol::ClientView::Exec {
                alias: alias@,
                auth: crate::protocol::request_view(auth),
                command: command@,
                as_user: match as_user {
                    Some(u) => Some(u@),
                    None => None,
                },
            }),
    {
        ClientFrame::Exec {
            alias: alias.to_owned(),
            auth,
            command: command.to_owned(),
            as_user: match as_user {
                Some(u) => Some(u.to_owned()),
                None => None,
            },
        }
    }

    /// The request for a shell.
    pub fn shell(
        alias: &str,
        auth: Option<AuthRequest>,
        term: &str,
        columns: u32,
        rows: u32,
        as_user: Option<&str>,
    ) -> (r: ClientFrame)
        ensures
            r@ == (crate::protocol::ClientView::Shell {
                alias: alias@,
                auth: crate::protocol::request_view(auth),
                term: term@,
                columns,
                rows,
                as_user: match as_user {
                    Some(u) => Some(u@),
                    None => None,
                },
            }),
    {
        ClientFrame::Shell {
            alias: alias.to_owned(),
            auth,
            term: term.to_owned(),
            columns,
            rows,
            as_user: match as_user {
                Some(u) => Some(u.to_owned()),
                None => None,
            },
        }
    }

    /// The daemon cannot be reached, so that the caller may go on without it.
    pub fn is_unavailable(causes: &[IoErrorKind]) -> (r: bool)
        ensures
            r == exists|i: int|
                0 <= i < causes@.len() && crate::endpoint::says_unavailable(
                    #[trigger] causes@[i],
                ),
    {
        is_endpoint_unavailable(causes)
    }
}

/// What to do after a frame that came while a command runs.
pub enum ExecStep {
    Finish(DaemonExecOutcome),
    WriteStdout(Vec<u8>),
    WriteStderr(Vec<u8>),
    /// Credentials are asked for; the answer is a `JumpAuthResponse`.
    Answer(DaemonJumpAuthChallenge),
    Wait,
    Fail(DaemonError),
}

/// A command that the daemon runs.
#[derive(Debug, Clone, Copy, PartialEq, Eq, Structural)]
pub struct ExecSession {
    /// The daemon says that it used a connection again.
    pub reused: bool,
}

/// The step that a frame calls for.
pub open spec fn exec_step(reused: bool, frame: Option<ServerFrame>, step: ExecStep) -> bool {
    match frame {
        Some(ServerFrame::AuthRequired) => step == ExecStep::Finish(
            DaemonExecOutcome::AuthRequired,
        ),
        Some(ServerFrame::Cache { .. }) => step is Wait,
        Some(ServerFrame::JumpAuthChallenge { .. }) => step matches ExecStep::Answer(c) && c.asks(
            frame->0,
        ),
        Some(ServerFrame::Stdout(bytes)) => step == ExecStep::WriteStdout(bytes),
        Some(ServerFrame::Stderr(bytes)) => step == ExecStep::WriteStderr(bytes),
        Some(ServerFrame::Exit(exit_status)) => step == ExecStep::Finish(
            DaemonExecOutcome::Completed { exit_status, reused },
        ),
        Some(ServerFrame::Error(message)) => step matches ExecStep::Fail(e) && e@ == (
        DaemonFault { problem: DaemonProblem::Failed, message: message@ }),
        Some(ServerFrame::Done) => step is Wait,
        Some(ServerFrame::Status { .. }) => step matches ExecStep::Fail(e) && e@ == daemon_fault(
            DaemonProblem::Unexpected,
        ),
        None => step matches ExecStep::Fail(e) && e@ == daemon_fault(DaemonProblem::Closed),
    }
}

impl ExecSession {
    pub fn new() -> (r: Self)
        ensures
            !r.reused,
    {
        ExecSession { reused: false }
    }

    /// Takes in the next frame, or the end of the connection.
    pub fn step(&mut self, frame: Option<ServerFrame>) -> (r: ExecStep)
        ensures
            exec_step(old(self).reused, frame, r),
            final(self).reused == match frame {
                Some(ServerFrame::Cache { reused }) => reused,
                _ => old(self).reused,
            },
    {
        match frame {
            Some(ServerFrame::AuthRequired) => ExecStep::Finish(DaemonExecOutcome::AuthRequired),
            Some(ServerFrame::Cache { reused }) => {
                self.reused = reused;
                ExecStep::Wait
            },
            Some(
                ServerFrame::JumpAuthChallenge {
                    index,
                    total,
                    attempt,
                    alias,
                    host,
                    port,
                    previous_failed,
                },
            ) => ExecStep::Answer(
                DaemonJumpAuthChallenge {
                    index,
                    total,
                    attempt,
                    alias,
                    host,
                    port,
                    previous_failed,
                },
            ),
            Some(ServerFrame::Stdout(bytes)) => ExecStep::WriteStdout(bytes),
            Some(ServerFrame::Stderr(bytes)) => ExecStep::WriteStderr(bytes),
            Some(ServerFrame::Exit(exit_status)) => ExecStep::Finish(
                DaemonExecOutcome::Completed { exit_status, reused: self.reused },
            ),
            Some(ServerFrame::Error(message)) => ExecStep::Fail(
                DaemonError { problem: DaemonProblem::Failed, message },
            ),
            Some(ServerFrame::Done) => ExecStep::Wait,
            Some(ServerFrame::Status { .. }) => ExecStep::Fail(
                daemon_error(DaemonProblem::Unexpected),
            ),
            None => ExecStep::Fail(daemon_error(DaemonProblem::Closed)),
        }
    }
}

/// What to do after a frame that came for a shell.
pub enum ShellStep {
    Finish(DaemonShellOutcome),
    /// Both outputs go to the terminal.
    Write(Vec<u8>),
    Answer(DaemonJumpAuthChallenge),
    /// From here on input is sent and output comes.
    Start,
    Wait,
    Fail(DaemonError),
}

/// A shell that the daemon runs.
#[derive(Debug, Clone, Copy, PartialEq, Eq, Structural)]
pub struct DaemonShell {
    pub started: bool,
    pub reused: bool,
    pub input_closed: bool,
}

/// The step that a frame calls for before the shell has started.
pub open spec fn setup_step(frame: Option<ServerFrame>, step: ShellStep) -> bool {
    match frame {
        Some(ServerFrame::AuthRequired) => step == ShellStep::Finish(
            DaemonShellOutcome::AuthRequired,
        ),
        Some(ServerFrame::Cache { .. }) => step is Start,
        Some(ServerFrame::JumpAuthChallenge { .. }) => step matches ShellStep::Answer(c) && c.asks(
            frame->0,
        ),
        Some(ServerFrame::Error(message)) => step matches ShellStep::Fail(e) && e@ == (
        DaemonFault { problem: DaemonProblem::Failed, message: message@ }),
        Some(ServerFrame::Done) => step is Wait,
        Some(_) => step matches ShellStep::Fail(e) && e@ == daemon_fault(
            DaemonProblem::Unexpected,
        ),
        None => step matches ShellStep::Fail(e) && e@ == daemon_fault(DaemonProblem::Closed),
    }
}

/// The step that a frame calls for once the shell has started.
pub open spec fn stream_step(reused: bool, frame: Option<ServerFrame>, step: ShellStep) -> bool {
    match frame {
        Some(ServerFrame::Stdout(bytes)) => step == ShellStep::Write(bytes),
        Some(ServerFrame::Stderr(bytes)) => step == ShellStep::Write(bytes),
        Some(ServerFrame::Exit(exit_status)) => step == ShellStep::Finish(
            DaemonShellOutcome::Completed { exit_status, reused },
        ),
        Some(ServerFrame::Error(message)) => step matches ShellStep::Fail(e) && e@ == (
        DaemonFault { problem: DaemonProblem::Failed, message: message@ }),
        Some(ServerFrame::Cache { .. }) => step is Wait,
        Some(ServerFrame::Done) => step is Wait,
        Some(ServerFrame::AuthRequired) => step matches ShellStep::Fail(e) && e@ == daemon_fault(
            DaemonProblem::LateAuthentication,
        ),
        Some(ServerFrame::JumpAuthChallenge { .. }) => step matches ShellStep::Fail(e) && e@
            == daemon_fault(DaemonProblem::LateJumpAuthentication),
        Some(ServerFrame::Status { .. }) => step matches ShellStep::Fail(e) && e@ == daemon_fault(
            DaemonProblem::Unexpected,
        ),
        None => step matches ShellStep::Fail(e) && e@ == daemon_fault(DaemonProblem::Closed),
    }
}

impl DaemonShell {
    pub fn new() -> (r: Self)
        ensures
            !r.started,
            !r.reused,
            !r.input_closed,
    {
        DaemonShell { started: false, reused: false, input_closed: false }
    }

    /// Takes in the next frame, or the end of the connection.
    pub fn step(&mut self, frame: Option<ServerFrame>) -> (r: ShellStep)
        ensures
            if old(self).started {
                stream_step(old(self).reused, frame, r)
            } else {
                setup_step(frame, r)
            },
            final(self).started == (old(self).started || frame matches Some(
                ServerFrame::Cache { .. },
            )),
            final(self).reused == match frame {
                Some(ServerFrame::Cache { reused }) => reused,
                _ => old(self).reused,
            },
            final(self).input_closed == old(self).input_closed,
    {
        if self.started {
            return match frame {
                Some(ServerFrame::Stdout(bytes)) => ShellStep::Write(bytes),
                Some(ServerFrame::Stderr(bytes)) => ShellStep::Write(bytes),
                Some(ServerFrame::Exit(exit_status)) => ShellStep::Finish(
                    DaemonShellOutcome::Completed { exit_status, reused: self.reused },
                ),
                Some(ServerFrame::Error(message)) => ShellStep::Fail(
                    DaemonError { problem: DaemonProblem::Failed, message },
                ),
                Some(ServerFrame::Cache { reused }) => {
                    self.reused = reused;
                    ShellStep::Wait
                },
                Some(ServerFrame::Done) => ShellStep::Wait,
                Some(ServerFrame::AuthRequired) => ShellStep::Fail(
                    daemon_error(DaemonProblem::LateAuthentication),
                ),
                Some(ServerFrame::JumpAuthChallenge { .. }) => ShellStep::Fail(
                    daemon_error(DaemonProblem::LateJumpAuthentication),
                ),
                Some(ServerFrame::Status { .. }) => ShellStep::Fail(
                    daemon_error(DaemonProblem::Unexpected),
                ),
                None => ShellStep::Fail(daemon_error(DaemonProblem::Closed)),
            };
        }
        match frame {
            Some(ServerFrame::AuthRequired) => ShellStep::Finish(DaemonShellOutcome::AuthRequired),
            Some(ServerFrame::Cache { reused }) => {
                self.started = true;
                self.reused = reused;
                ShellStep::Start
            },
            Some(
                ServerFrame::JumpAuthChallenge {
                    index,
                    total,
                    attempt,
                    alias,
                    host,
                    port,
                    previous_failed,
                },
            ) => ShellStep::Answer(
                DaemonJumpAuthChallenge {
                    index,
                    total,
                    attempt,
                    alias,
                    host,
                    port,
                    previous_failed,
                },
            ),
            Some(ServerFrame::Error(message)) => ShellStep::Fail(
                DaemonError { problem: DaemonProblem::Failed, message },
            ),
            Some(ServerFrame::Done) => ShellStep::Wait,
            Some(_) => ShellStep::Fail(daemon_error(DaemonProblem::Unexpected)),
            None => ShellStep::Fail(daemon_error(DaemonProblem::Closed)),
        }
    }

    /// The frame for input that was read; no bytes mean that input has ended.
    /// Once it has, nothing more is read.
    pub fn input(&mut self, bytes: Vec<u8>) -> (r: ClientFrame)
        ensures
            final(self).started == old(self).started,
            final(self).reused == old(self).reused,
            final(self).input_closed == (old(self).input_closed || bytes@.len() == 0),
            r@ == (if bytes@.len() == 0 {
                crate::protocol::ClientView::Eof
            } else {
                crate::protocol::ClientView::Input(bytes@)
            }),
    {
        if bytes.len() == 0 {
            self.input_closed = true;
            ClientFrame::Eof
        } else {
            ClientFrame::Input(bytes)
        }
    }
}

} // verus!
