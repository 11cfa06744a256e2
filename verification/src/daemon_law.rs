//! Laws of the daemon: what each frame means on either side.

use vstd::prelude::*;

use crate::auth::AuthView;
use crate::daemon_client::DaemonExecOutcome;
use crate::daemon_client::DaemonProblem;
use crate::daemon_client::DaemonShellOutcome;
use crate::daemon_client::ExecStep;
use crate::daemon_client::ShellStep;
use crate::daemon_server::Operation;
use crate::manager::ConnectionManagerConfig;
use crate::model::StoredAuthMethod;
use crate::protocol::ClientFrame;
use crate::protocol::RequestView;
use crate::protocol::ServerFrame;

verus! {

/// Output goes to the stream that it is for; an exit ends the session with the
/// status that was told and with what was said of the connection; and an error
/// or an end before it fails.
pub proof fn commands_end_with_their_status(
    reused: bool,
    frame: Option<ServerFrame>,
    step: ExecStep,
)
    requires
        crate::daemon_client::exec_step(reused, frame, step),
    ensures
        step matches ExecStep::Finish(DaemonExecOutcome::Completed { exit_status, reused: again })
            ==> frame == Some(ServerFrame::Exit(exit_status)) && again == reused,
        step == ExecStep::Finish(DaemonExecOutcome::AuthRequired) <==> frame == Some(
            ServerFrame::AuthRequired,
        ),
        step matches ExecStep::WriteStdout(bytes) ==> frame == Some(ServerFrame::Stdout(bytes)),
        step matches ExecStep::WriteStderr(bytes) ==> frame == Some(ServerFrame::Stderr(bytes)),
        frame matches Some(ServerFrame::Stdout(bytes)) ==> step == ExecStep::WriteStdout(bytes),
        frame matches Some(ServerFrame::Stderr(bytes)) ==> step == ExecStep::WriteStderr(bytes),
        frame matches Some(ServerFrame::Exit(status)) ==> step is Finish,
        frame matches Some(ServerFrame::Error(message)) ==> (step matches ExecStep::Fail(e)
            && e.problem == DaemonProblem::Failed && e.message@ == message@),
        frame is None ==> (step matches ExecStep::Fail(e) && e.problem == DaemonProblem::Closed),
        step is Answer <==> frame matches Some(ServerFrame::JumpAuthChallenge { .. }),
        step matches ExecStep::Answer(challenge) ==> challenge.asks(frame->0),
        step is Fail ==> frame is None || frame matches Some(ServerFrame::Error(_))
            || frame matches Some(ServerFrame::Status { .. }),
{
}

/// A shell starts with what is said of the connection, and not before.
pub proof fn shells_start_when_told(frame: Option<ServerFrame>, step: ShellStep)
    requires
        crate::daemon_client::setup_step(frame, step),
    ensures
        step is Start <==> frame matches Some(ServerFrame::Cache { .. }),
        step == ShellStep::Finish(DaemonShellOutcome::AuthRequired) <==> frame == Some(
            ServerFrame::AuthRequired,
        ),
        step is Answer <==> frame matches Some(ServerFrame::JumpAuthChallenge { .. }),
        step matches ShellStep::Answer(challenge) ==> challenge.asks(frame->0),
        !(step is Write),
        frame matches Some(ServerFrame::Error(message)) ==> (step matches ShellStep::Fail(e)
            && e.problem == DaemonProblem::Failed && e.message@ == message@),
        frame is None ==> (step matches ShellStep::Fail(e) && e.problem == DaemonProblem::Closed),
{
}

/// In a shell both outputs go to the terminal, an exit ends it with its status,
/// and nobody is asked for credentials any more.
pub proof fn shells_end_with_their_status(
    reused: bool,
    frame: Option<ServerFrame>,
    step: ShellStep,
)
    requires
        crate::daemon_client::stream_step(reused, frame, step),
    ensures
        step matches ShellStep::Write(bytes) ==> frame == Some(ServerFrame::Stdout(bytes)) || frame
            == Some(ServerFrame::Stderr(bytes)),
        frame matches Some(ServerFrame::Stdout(bytes)) ==> step == ShellStep::Write(bytes),
        frame matches Some(ServerFrame::Stderr(bytes)) ==> step == ShellStep::Write(bytes),
        frame matches Some(ServerFrame::Exit(exit_status)) ==> step == ShellStep::Finish(
            DaemonShellOutcome::Completed { exit_status, reused },
        ),
        step is Finish ==> frame matches Some(ServerFrame::Exit(_)),
        !(step is Answer) && !(step is Start),
        frame == Some(ServerFrame::AuthRequired) ==> step is Fail,
        frame matches Some(ServerFrame::JumpAuthChallenge { .. }) ==> step is Fail,
        frame is None ==> (step matches ShellStep::Fail(e) && e.problem == DaemonProblem::Closed),
{
}

/// An answer that was not asked for is refused; where it is an error, with its
/// message.
pub proof fn errors_keep_their_message(reply: Option<ServerFrame>)
    ensures
        ({
            let fault = crate::daemon_client::wrong_answer(reply);
            &&& reply matches Some(ServerFrame::Error(message)) ==> fault.problem
                == DaemonProblem::Failed && fault.message == message@
            &&& !(reply matches Some(ServerFrame::Error(_))) ==> fault.problem
                == DaemonProblem::Unexpected && fault.message.len() == 0
        }),
{
    reveal_strlit("");
}

/// What is run is what was asked for.
pub proof fn operations_are_those_asked_for(operation: Operation, frame: ClientFrame)
    requires
        crate::daemon_server::runs(operation, frame),
    ensures
        operation matches Operation::Exec { alias, auth, command, as_user } ==> (
        frame matches ClientFrame::Exec { alias: a, auth: b, command: c, as_user: d } && a == alias
            && b == auth && c == command && d == as_user),
        operation matches Operation::Shell { alias, auth, term, columns, rows, as_user } ==> (
        frame matches ClientFrame::Shell {
            alias: a,
            auth: b,
            term: c,
            columns: x,
            rows: y,
            as_user: d,
        } && a == alias && b == auth && c == term && x == columns && y == rows && d == as_user),
{
}

/// A daemon begins with nothing.
pub proof fn daemons_begin_empty(config: ConnectionManagerConfig)
    ensures
        ({
            let pool = crate::daemon_server::empty_pool(config);
            &&& pool.wf() && pool.config == config
            &&& pool.connections.len() == 0 && pool.connecting.len() == 0
            &&& pool.held == 0 && pool.pending == 0 && pool.tickets == 0
        }),
{
}

/// The way that is noted for a host is the one that was used; without one the
/// way that was noted before stays.
pub proof fn used_ways_are_noted(
    auth: RequestView,
    fresh: Option<StoredAuthMethod>,
    last: Option<StoredAuthMethod>,
)
    ensures
        crate::daemon_server::method_of(auth).name() == (match auth {
            RequestView::Auto => "auto"@,
            RequestView::Agent => "agent"@,
            RequestView::Password(_) => "password"@,
            RequestView::KeyboardInteractive(_) => "keyboard-interactive"@,
            RequestView::PrivateKey { .. } => "private-key"@,
        }),
        fresh is Some ==> crate::daemon_server::noted_method(fresh, last) == fresh->0,
        fresh is None && last is Some ==> crate::daemon_server::noted_method(fresh, last)
            == last->0,
        fresh is None && last is None ==> crate::daemon_server::noted_method(fresh, last)
            == StoredAuthMethod::Auto,
{
}

/// Credentials that a client sends are used as they are; where it leaves the way
/// open, the keys of the host are tried.
pub proof fn sent_credentials_are_used(auth: RequestView, identities: Seq<Seq<char>>)
    ensures
        auth.authentication(identities) == (match auth {
            RequestView::Auto => AuthView::Auto { identity_files: identities, passphrase: None },
            RequestView::Agent => AuthView::Agent,
            RequestView::Password(secret) => AuthView::Password(secret),
            RequestView::KeyboardInteractive(secret) => AuthView::KeyboardInteractive(secret),
            RequestView::PrivateKey { path, passphrase } => AuthView::PrivateKey {
                path,
                passphrase,
            },
        }),
{
}

} // verus!
