//! Frames between daemon and client, and what each side does with them.

use kaduox_ssh::auth::Authentication;
use kaduox_ssh::config::ConnectionConfig;
use kaduox_ssh::daemon_client::DaemonClient;
use kaduox_ssh::daemon_client::DaemonExecOutcome;
use kaduox_ssh::daemon_client::DaemonProblem;
use kaduox_ssh::daemon_client::DaemonShell;
use kaduox_ssh::daemon_client::ExecSession;
use kaduox_ssh::daemon_client::ExecStep;
use kaduox_ssh::daemon_client::ShellStep;
use kaduox_ssh::daemon_server::last_frame;
use kaduox_ssh::daemon_server::output_frame;
use kaduox_ssh::daemon_server::plan_client;
use kaduox_ssh::daemon_server::shell_frame;
use kaduox_ssh::daemon_server::ClientPlan;
use kaduox_ssh::daemon_server::DaemonState;
use kaduox_ssh::daemon_server::FirstStep;
use kaduox_ssh::daemon_server::ShellControl;
use kaduox_ssh::endpoint::check_connect;
use kaduox_ssh::endpoint::check_peer;
use kaduox_ssh::directories::DirectoryVariables;
use kaduox_ssh::directories::Platform;
use kaduox_ssh::endpoint::default_endpoint_path;
use kaduox_ssh::endpoint::is_endpoint_unavailable;
use kaduox_ssh::endpoint::may_remove_socket;
use kaduox_ssh::endpoint::EndpointProblem;
use kaduox_ssh::endpoint::FileFacts;
use kaduox_ssh::endpoint::IoErrorKind;
use kaduox_ssh::model::StoredAuthMethod;
use kaduox_ssh::protocol::decode_client;
use kaduox_ssh::protocol::decode_server;
use kaduox_ssh::protocol::encode_client;
use kaduox_ssh::protocol::encode_server;
use kaduox_ssh::protocol::frame_payload;
use kaduox_ssh::protocol::payload_length;
use kaduox_ssh::protocol::AuthRequest;
use kaduox_ssh::protocol::ClientFrame;
use kaduox_ssh::protocol::FrameProblem;
use kaduox_ssh::protocol::ServerFrame;
use kaduox_ssh::protocol::MAX_FRAME_BYTES;
use kaduox_ssh::protocol::OUTPUT_CHUNK_BYTES;

#[test]
fn exec_round_trip_preserves_secret_only_on_wire() {
    let frame = ClientFrame::Exec {
        alias: "prod".into(),
        auth: Some(AuthRequest::Password("secret".into())),
        command: "uname -a".into(),
        as_user: Some("root".into()),
    };
    let encoded = encode_client(&frame).unwrap();
    let Ok(ClientFrame::Exec {
        alias,
        auth: Some(AuthRequest::Password(secret)),
        command,
        as_user,
    }) = decode_client(&encoded)
    else {
        panic!("unexpected frame")
    };
    assert_eq!(alias, "prod");
    assert_eq!(secret, "secret");
    assert_eq!(command, "uname -a");
    assert_eq!(as_user.as_deref(), Some("root"));
}

#[test]
fn debug_never_exposes_auth_secret() {
    let value = AuthRequest::Password("supersecret".into()).describe();
    assert!(!value.contains("supersecret"));
    assert!(value.contains("redacted"));
}

#[test]
fn oversized_input_is_rejected() {
    assert!(encode_client(&ClientFrame::Input(vec![0; OUTPUT_CHUNK_BYTES + 1])).is_err());
    assert!(encode_client(&ClientFrame::Input(vec![0; OUTPUT_CHUNK_BYTES])).is_ok());
}

#[test]
fn jump_challenge_round_trip_preserves_location_without_secret() {
    let frame = ServerFrame::JumpAuthChallenge {
        index: 1,
        total: 3,
        attempt: 2,
        alias: "inner".into(),
        host: "10.0.0.8".into(),
        port: 2222,
        previous_failed: true,
    };
    let encoded = encode_server(&frame).unwrap();
    assert_eq!(decode_server(&encoded).unwrap(), frame);
}

#[test]
fn jump_auth_response_round_trip_redacts_debug_secret() {
    let frame = ClientFrame::JumpAuthResponse {
        auth: Some(AuthRequest::Password("jump-secret".into())),
    };
    let encoded = encode_client(&frame).unwrap();
    let Ok(ClientFrame::JumpAuthResponse { auth: Some(auth) }) = decode_client(&encoded) else {
        panic!("unexpected frame")
    };
    let text = auth.describe();
    assert!(!text.contains("jump-secret"));
    assert!(text.contains("redacted"));
}

#[test]
fn bad_payloads_are_refused() {
    assert_eq!(decode_server(&[]).err(), Some(FrameProblem::EndedEarly));
    let mut long = encode_server(&ServerFrame::Done).unwrap();
    long.push(0);
    assert_eq!(
        decode_server(&long).err(),
        Some(FrameProblem::TrailingBytes)
    );
    let mut unknown = encode_client(&ClientFrame::Ping).unwrap();
    let last = unknown.len() - 1;
    unknown[last] = 200;
    assert_eq!(
        decode_client(&unknown).err(),
        Some(FrameProblem::UnknownTag)
    );
}

#[test]
fn payloads_travel_behind_their_length() {
    let framed = frame_payload(b"abc").unwrap();
    assert_eq!(framed, vec![0, 0, 0, 3, 97, 98, 99]);
    assert_eq!(payload_length(&[0, 0, 0, 3]), Ok(3));
    assert_eq!(
        payload_length(&[0xff, 0xff, 0xff, 0xff]),
        Err(FrameProblem::BadLength)
    );
    assert_eq!(payload_length(&[0, 0, 0, 0]), Err(FrameProblem::BadLength));
    assert!(frame_payload(&vec![0; MAX_FRAME_BYTES + 1]).is_err());
}

#[test]
fn requests_become_authentications() {
    let identities = vec!["/keys/a".to_owned()];
    assert!(matches!(
        AuthRequest::Auto.into_authentication(identities),
        Authentication::Auto { identity_files, passphrase: None }
            if identity_files == vec!["/keys/a".to_owned()]
    ));
    assert!(matches!(
        AuthRequest::Password("p".into()).into_authentication(vec![]),
        Authentication::Password(p) if p == "p"
    ));
}

#[test]
fn commands_over_the_daemon_end_with_their_status() {
    let mut session = ExecSession::new();
    assert!(matches!(
        session.step(Some(ServerFrame::Cache { reused: true })),
        ExecStep::Wait
    ));
    assert!(matches!(
        session.step(Some(ServerFrame::Stdout(b"x".to_vec()))),
        ExecStep::WriteStdout(bytes) if bytes == b"x"
    ));
    assert!(matches!(
        session.step(Some(ServerFrame::Exit(Some(2)))),
        ExecStep::Finish(DaemonExecOutcome::Completed {
            exit_status: Some(2),
            reused: true
        })
    ));
    let mut session = ExecSession::new();
    assert!(matches!(
        session.step(None),
        ExecStep::Fail(error) if error.problem == DaemonProblem::Closed
    ));
}

#[test]
fn shells_over_the_daemon_wait_for_the_connection() {
    let mut shell = DaemonShell::new();
    assert!(matches!(
        shell.step(Some(ServerFrame::AuthRequired)),
        ShellStep::Finish(_)
    ));
    let mut shell = DaemonShell::new();
    assert!(matches!(
        shell.step(Some(ServerFrame::Cache { reused: false })),
        ShellStep::Start
    ));
    assert!(matches!(
        shell.step(Some(ServerFrame::AuthRequired)),
        ShellStep::Fail(error) if error.problem == DaemonProblem::LateAuthentication
    ));
    assert!(matches!(
        shell.input(b"ls".to_vec()),
        ClientFrame::Input(bytes) if bytes == b"ls"
    ));
    assert!(matches!(shell.input(vec![]), ClientFrame::Eof));
    assert!(shell.input_closed);
}

#[test]
fn plain_replies_are_read() {
    assert_eq!(DaemonClient::ping(Some(ServerFrame::Done)), Ok(()));
    let error = DaemonClient::ping(Some(ServerFrame::Error("no".into()))).unwrap_err();
    assert_eq!(error.problem, DaemonProblem::Failed);
    assert!(error.message.contains("no"));
    let status = DaemonClient::status(Some(ServerFrame::Status {
        total_connections: 3,
        in_use_connections: 2,
        active_leases: 1,
        max_connections: 64,
        available_capacity: 61,
    }))
    .unwrap();
    assert_eq!(status.total_connections, 3);
    assert_eq!(status.available_capacity, 61);
}

#[test]
fn first_frames_are_answered() {
    let mut state = DaemonState::default();
    assert!(matches!(
        state.first_frame(ClientFrame::Ping, &[]),
        FirstStep::Reply(ServerFrame::Done)
    ));
    assert!(matches!(
        state.first_frame(ClientFrame::Status, &[]),
        FirstStep::Reply(ServerFrame::Status {
            total_connections: 0,
            max_connections: 64,
            ..
        })
    ));
    assert!(matches!(
        state.first_frame(ClientFrame::Eof, &[]),
        FirstStep::Reply(ServerFrame::Error(_))
    ));
    assert!(!state.stopping);
    state.first_frame(ClientFrame::Shutdown, &[]);
    assert!(state.stopping);
    assert!(state.manager().is_empty());
}

#[test]
fn held_connections_serve_equal_settings_only() {
    let held = ConnectionConfig::new("server.example", "deploy");
    assert!(matches!(
        plan_client(Some(&held), &held, None),
        ClientPlan::Reuse
    ));
    let mut other = held.copy();
    other.port = 2222;
    assert!(matches!(
        plan_client(Some(&held), &other, None),
        ClientPlan::Mismatch
    ));
    assert!(matches!(
        plan_client(None, &held, None),
        ClientPlan::AuthRequired
    ));
    assert!(matches!(
        plan_client(None, &held, Some(AuthRequest::Agent)),
        ClientPlan::Connect {
            method: StoredAuthMethod::Agent,
            ..
        }
    ));
}

#[test]
fn shell_frames_are_carried_out() {
    assert_eq!(
        shell_frame(Some(ClientFrame::Input(b"a".to_vec()))),
        ShellControl::Write(b"a".to_vec())
    );
    assert_eq!(shell_frame(Some(ClientFrame::Eof)), ShellControl::CloseInput);
    assert_eq!(shell_frame(None), ShellControl::Abort);
    assert!(matches!(
        shell_frame(Some(ClientFrame::Ping)),
        ShellControl::AbortWith(_)
    ));
    assert_eq!(
        output_frame(b"e".to_vec(), true),
        Some(ServerFrame::Stderr(b"e".to_vec()))
    );
    assert_eq!(output_frame(vec![], false), None);
    assert_eq!(last_frame(Ok(Some(1))), ServerFrame::Exit(Some(1)));
}

#[test]
fn endpoints_belong_to_their_user() {
    let directory = FileFacts {
        is_link: false,
        is_directory: true,
        is_socket: false,
        owner: 1000,
        mode: 0o040700,
    };
    let socket = FileFacts {
        is_link: false,
        is_directory: false,
        is_socket: true,
        owner: 1000,
        mode: 0o140600,
    };
    assert_eq!(check_connect(directory, socket), Ok(()));
    let mut open = directory;
    open.mode = 0o040755;
    assert_eq!(
        check_connect(open, socket),
        Err(EndpointProblem::DirectoryNotPrivate)
    );
    let mut foreign = socket;
    foreign.owner = 0;
    assert!(check_connect(directory, foreign).is_err());
    assert_eq!(check_peer(1000, 1000), Ok(()));
    assert_eq!(check_peer(1001, 1000), Err(EndpointProblem::ForeignPeer));
}

#[test]
fn stale_sockets_are_told_from_live_ones() {
    assert_eq!(
        may_remove_socket(Ok(())),
        Err(EndpointProblem::AlreadyRunning)
    );
    assert_eq!(
        may_remove_socket(Err(IoErrorKind::ConnectionRefused)),
        Ok(())
    );
    assert_eq!(
        may_remove_socket(Err(IoErrorKind::Other)),
        Err(EndpointProblem::StateUnknown)
    );
    assert!(is_endpoint_unavailable(&[IoErrorKind::NotFound]));
    assert!(!is_endpoint_unavailable(&[IoErrorKind::Other]));
    assert!(DaemonClient::is_unavailable(&[IoErrorKind::ConnectionRefused]));
    let mut variables = DirectoryVariables {
        home: Some("/home/u".to_owned()),
        xdg_runtime_dir: Some("/run/user/1000".to_owned()),
        ..DirectoryVariables::default()
    };
    for platform in [Platform::Unix, Platform::MacOs] {
        assert_eq!(
            default_endpoint_path(platform, &variables),
            Some("/run/user/1000/kaduox-ssh/daemon.sock".to_owned())
        );
    }
    assert_eq!(
        default_endpoint_path(Platform::Windows, &variables),
        Some("\\\\.\\pipe\\kaduox-ssh-daemon-v1".to_owned())
    );
    variables.xdg_runtime_dir = Some(String::new());
    assert_eq!(
        default_endpoint_path(Platform::Unix, &variables),
        Some("/home/u/.cache/kaduox-ssh/daemon.sock".to_owned())
    );
    assert_eq!(
        default_endpoint_path(Platform::MacOs, &variables),
        Some("/home/u/Library/Caches/Kaduox-SSH/daemon.sock".to_owned())
    );
    variables.home = None;
    assert_eq!(default_endpoint_path(Platform::Unix, &variables), None);
}

#[test]
fn names_are_shown_in_quotes_with_escapes() {
    let mut state = DaemonState::default();
    let frame = ClientFrame::Disconnect { alias: "a\"b".into() };
    match state.first_frame(frame, &[]) {
        FirstStep::Reply(ServerFrame::Error(message)) => {
            assert_eq!(message, "no cached connection named \"a\\\"b\"");
        }
        _ => panic!("an unknown connection is reported"),
    }
    let key = AuthRequest::PrivateKey {
        path: "/keys/one".into(),
        passphrase: Some("supersecret".into()),
    };
    assert_eq!(
        key.describe(),
        "PrivateKey { path: \"/keys/one\", has_passphrase: true }"
    );
}

#[test]
fn frames_are_taken_whole() {
    let frame = ClientFrame::Exec {
        alias: "prod".into(),
        auth: Some(AuthRequest::PrivateKey {
            path: "/keys/one".into(),
            passphrase: Some("supersecret".into()),
        }),
        command: "uptime".into(),
        as_user: Some("root".into()),
    };
    let bytes = encode_client(&frame).unwrap();
    assert!(decode_client(&bytes).is_ok());
    for n in 0..bytes.len() {
        assert!(decode_client(&bytes[..n]).is_err(), "{n}");
    }
    for next in [0_u8, 1, 255] {
        let mut longer = bytes.clone();
        longer.push(next);
        assert!(decode_client(&longer).is_err());
    }

    let reply = encode_server(&ServerFrame::Exit(Some(7))).unwrap();
    for n in 0..reply.len() {
        assert!(decode_server(&reply[..n]).is_err());
    }
    let mut longer = reply.clone();
    longer.push(0);
    assert!(decode_server(&longer).is_err());
}
