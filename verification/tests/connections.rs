//! Connection settings, authentication and the pool of connections.

use kaduox_ssh::auth::prompt_answers;
use kaduox_ssh::auth::AuthAttempt;
use kaduox_ssh::auth::AuthOutcome;
use kaduox_ssh::auth::AuthStep;
use kaduox_ssh::auth::Authentication;
use kaduox_ssh::auth::AuthenticationReuseKey;
use kaduox_ssh::client::choose_transport;
use kaduox_ssh::client::command_for_user;
use kaduox_ssh::client::connection_steps;
use kaduox_ssh::client::expand_proxy_command;
use kaduox_ssh::client::ChannelEvent;
use kaduox_ssh::client::CommandOutput;
use kaduox_ssh::client::RemoteUser;
use kaduox_ssh::client::ShellAction;
use kaduox_ssh::client::ShellEvent;
use kaduox_ssh::client::ShellSession;
use kaduox_ssh::client::Transport;
use kaduox_ssh::command::quote_posix;
use kaduox_ssh::config::host_key_policy_from_config;
use kaduox_ssh::config::parse_host_port;
use kaduox_ssh::config::parse_jump_destination;
use kaduox_ssh::config::parse_openssh_contents;
use kaduox_ssh::config::resolve_jump_hosts;
use kaduox_ssh::config::validate_untrusted_shell_token;
use kaduox_ssh::config::ConfigProblem;
use kaduox_ssh::config::ConnectionConfig;
use kaduox_ssh::config::ConnectionRouteSnapshot;
use kaduox_ssh::config::HostKeyPolicy;
use kaduox_ssh::config::JumpHost;
use kaduox_ssh::config::OpenSshBook;
use kaduox_ssh::config::OpenSshRecord;
use kaduox_ssh::config::Span;
use kaduox_ssh::config::DEFAULT_CHANNEL_OPEN_SECS;
use kaduox_ssh::config::DEFAULT_CHANNEL_REQUEST_SECS;
use kaduox_ssh::config::DEFAULT_CONNECT_SECS;
use kaduox_ssh::connect::authentication_kind;
use kaduox_ssh::connect::next_jump_request;
use kaduox_ssh::connect::AuthenticationKind;
use kaduox_ssh::connect::MAX_JUMP_AUTH_ATTEMPTS;
use kaduox_ssh::credentials::account_name;
use kaduox_ssh::credentials::endpoint;
use kaduox_ssh::manager::ensure_reusable;
use kaduox_ssh::manager::ConnectClaim;
use kaduox_ssh::manager::ConnectDecision;
use kaduox_ssh::manager::ConnectionManager;
use kaduox_ssh::manager::ConnectionManagerConfig;
use kaduox_ssh::manager::Installed;
use kaduox_ssh::manager::ManagedConnection;
use kaduox_ssh::manager::PoolProblem;

fn default_manager() -> ConnectionManager {
    ConnectionManager::new(ConnectionManagerConfig::default())
}

fn local_book() -> OpenSshBook {
    OpenSshBook::unconfigured("local")
}

fn bastion(port: u16) -> JumpHost {
    JumpHost {
        alias: "bastion".to_owned(),
        host: "bastion.example".to_owned(),
        port,
        username: "jump".to_owned(),
        identity_files: Vec::new(),
        host_key_policy: HostKeyPolicy::AcceptNew,
        known_hosts_file: None,
    }
}

#[test]
fn password_and_keyboard_interactive_are_never_implicitly_reusable() {
    let password = Authentication::Password("do-not-store-me".to_owned()).reuse_key();
    let keyboard =
        Authentication::KeyboardInteractive("do-not-store-me-either".to_owned()).reuse_key();
    assert_eq!(password, AuthenticationReuseKey::NonReusable);
    assert_eq!(keyboard, AuthenticationReuseKey::NonReusable);
    assert!(!password.can_reuse_with(&AuthenticationReuseKey::NonReusable));
}

#[test]
fn private_key_reuse_uses_path_without_passphrase_material() {
    let first = Authentication::PrivateKey {
        path: "/keys/deploy".to_owned(),
        passphrase: Some("first-secret".to_owned()),
    }
    .reuse_key();
    let second = Authentication::PrivateKey {
        path: "/keys/deploy".to_owned(),
        passphrase: Some("second-secret".to_owned()),
    }
    .reuse_key();
    let different = Authentication::PrivateKey {
        path: "/keys/admin".to_owned(),
        passphrase: None,
    }
    .reuse_key();

    assert!(first.can_reuse_with(&second));
    assert!(!first.can_reuse_with(&different));
    assert_eq!(format!("{first:?}"), "PrivateKey(\"/keys/deploy\")");
}

#[test]
fn auto_reuse_requires_the_same_configured_identity_sources() {
    let first = Authentication::Auto {
        identity_files: vec!["id_a".to_owned(), "id_b".to_owned()],
        passphrase: Some("secret".to_owned()),
    }
    .reuse_key();
    let same = Authentication::Auto {
        identity_files: vec!["id_a".to_owned(), "id_b".to_owned()],
        passphrase: None,
    }
    .reuse_key();
    let reordered = Authentication::Auto {
        identity_files: vec!["id_b".to_owned(), "id_a".to_owned()],
        passphrase: None,
    }
    .reuse_key();

    assert!(first.can_reuse_with(&same));
    assert!(!first.can_reuse_with(&reordered));
}

#[test]
fn automatic_authentication_tries_the_agent_then_each_key() {
    let auto = Authentication::Auto {
        identity_files: vec!["id_a".to_owned(), "id_b".to_owned()],
        passphrase: None,
    };
    assert_eq!(auto.next_step(0, None), AuthStep::Try(AuthAttempt::Agent));
    assert_eq!(
        auto.next_step(1, Some(AuthOutcome::Refused)),
        AuthStep::Try(AuthAttempt::PrivateKey("id_a".to_owned()))
    );
    assert_eq!(
        auto.next_step(2, Some(AuthOutcome::Failed)),
        AuthStep::Try(AuthAttempt::PrivateKey("id_b".to_owned()))
    );
    assert_eq!(
        auto.next_step(2, Some(AuthOutcome::Accepted)),
        AuthStep::Authenticated
    );
    let password = Authentication::Password("p".to_owned());
    assert_eq!(
        password.next_step(0, None),
        AuthStep::Try(AuthAttempt::Password)
    );
    assert_eq!(
        password.next_step(1, Some(AuthOutcome::Refused)),
        AuthStep::Refused
    );
    assert_eq!(
        password.next_step(1, Some(AuthOutcome::Failed)),
        AuthStep::Failed
    );
}

#[test]
fn every_prompt_gets_the_secret() {
    assert_eq!(prompt_answers("pw", 3), vec!["pw", "pw", "pw"]);
    assert!(prompt_answers("pw", 0).is_empty());
}

#[test]
fn posix_quote_escapes_single_quotes() {
    assert_eq!(quote_posix("a'b"), "'a'\"'\"'b'");
}

#[test]
fn expands_proxy_tokens() {
    let mut config = ConnectionConfig::new("real.example", "deploy");
    config.alias = "prod".into();
    config.port = 2200;
    assert_eq!(
        expand_proxy_command("nc %h %p # %r %n %%", &config),
        "nc real.example 2200 # deploy prod %"
    );
}

#[test]
fn parses_jump_host_user_and_port() {
    let (host, port) = parse_host_port("bastion.example:2222").unwrap();
    assert_eq!(host, "bastion.example");
    assert_eq!(port, Some(2222));
}

#[test]
fn parses_bracketed_ipv6() {
    let (host, port) = parse_host_port("[2001:db8::1]:2200").unwrap();
    assert_eq!(host, "2001:db8::1");
    assert_eq!(port, Some(2200));
}

#[test]
fn parses_unbracketed_ipv6_without_port() {
    let (host, port) = parse_host_port("2001:db8::1").unwrap();
    assert_eq!(host, "2001:db8::1");
    assert_eq!(port, None);
}

#[test]
fn parses_openssh_proxyjump_ssh_uri() {
    let (user, host_port) = parse_jump_destination("ssh://deploy@[2001:db8::1]:2222").unwrap();
    assert_eq!(user, Some("deploy".to_owned()));
    let (host, port) = parse_host_port(&host_port).unwrap();
    assert_eq!(host, "2001:db8::1");
    assert_eq!(port, Some(2222));
}

#[test]
fn none_disables_proxy_jump_at_the_shared_parser_boundary() {
    assert!(resolve_jump_hosts("none", &local_book()).unwrap().is_empty());
    assert!(resolve_jump_hosts("NONE", &local_book()).unwrap().is_empty());
}

#[test]
fn malformed_jump_chains_fail_closed() {
    for spec in ["host,,other", ",host", "host,", "host,none"] {
        assert!(resolve_jump_hosts(spec, &local_book()).is_err(), "{spec:?}");
    }
}

#[test]
fn malformed_jump_user_host_forms_are_rejected() {
    for spec in ["@host", "user@", "a@b@host", "user name@host"] {
        assert!(resolve_jump_hosts(spec, &local_book()).is_err(), "{spec:?}");
    }
}

#[test]
fn malformed_jump_uri_forms_are_rejected() {
    for spec in [
        "ssh://",
        "http://host",
        "ssh://user@host/path",
        "ssh://host?query",
        "ssh://host#fragment",
    ] {
        assert!(parse_jump_destination(spec).is_err(), "{spec:?}");
    }
}

#[test]
fn malformed_host_port_forms_are_rejected() {
    for value in [
        "",
        ":22",
        "host:",
        "host:ssh",
        "[]:22",
        "[not-ipv6]:22",
        "[2001:db8::1]oops",
        "foo:bar:baz",
    ] {
        assert!(parse_host_port(value).is_err(), "{value:?}");
    }
}

#[test]
fn supported_openssh_config_still_parses() {
    let parsed = parse_openssh_contents(
        "Host prod\n  HostName 10.0.0.10\n  User deploy\n  Port 2200\n",
        "prod",
    )
    .unwrap();
    assert_eq!(parsed.host(), "10.0.0.10");
    assert_eq!(parsed.effective_user("local"), "deploy");
    assert_eq!(parsed.effective_port(), 2200);
}

#[test]
fn raw_match_and_include_are_rejected_before_partial_resolution() {
    let match_config = "Host prod\n  User alice\nMatch host *.internal\n  User bob\n";
    assert!(parse_openssh_contents(match_config, "prod").is_err());

    let include_config = "Include ~/.ssh/conf.d/*\nHost prod\n  User deploy\n";
    assert!(parse_openssh_contents(include_config, "prod").is_err());
}

#[test]
fn malformed_config_is_not_silently_defaulted() {
    assert!(parse_openssh_contents("User deploy\nHost prod\n", "prod").is_err());
}

#[test]
fn host_key_policy_defaults_and_overrides_are_explicit() {
    assert_eq!(host_key_policy_from_config(None), HostKeyPolicy::AcceptNew);
    assert_eq!(
        host_key_policy_from_config(Some(true)),
        HostKeyPolicy::Strict
    );
    assert_eq!(
        host_key_policy_from_config(Some(false)),
        HostKeyPolicy::Insecure
    );
}

#[test]
fn shell_active_untrusted_tokens_are_rejected() {
    for value in [
        "-option",
        "host name",
        "host;touch-pwned",
        "$(touch-pwned)",
        "`touch-pwned`",
        r"host\name",
    ] {
        assert!(validate_untrusted_shell_token(value, "test token").is_err());
    }

    for value in ["server.example", "user-name", "2001:db8::1", "user@example"] {
        assert!(validate_untrusted_shell_token(value, "test token").is_ok());
    }
}

#[test]
fn explicit_proxy_jump_rejects_shell_active_tokens() {
    assert!(resolve_jump_hosts("deploy@bastion.example:2222", &local_book()).is_ok());
    assert!(resolve_jump_hosts("deploy@bad;host:2222", &local_book()).is_err());
    assert!(resolve_jump_hosts("bad;user@bastion.example:2222", &local_book()).is_err());
}

#[test]
fn connection_timeouts_have_safe_defaults_and_reject_zero() {
    let zero = Span::from_secs(0);
    let mut config = ConnectionConfig::new("example.com", "deploy");
    assert_eq!(config.connect_timeout, Span::from_secs(15));
    assert_eq!(config.channel_open_timeout, Span::from_secs(15));
    assert_eq!(config.channel_request_timeout, Span::from_secs(15));
    assert_eq!(config.authentication_timeout, Span::from_secs(30));
    assert!(config.validate_timeouts().is_ok());

    config.connect_timeout = zero;
    assert!(config.validate_timeouts().is_err());
    config.connect_timeout = Span::from_secs(DEFAULT_CONNECT_SECS);
    config.channel_open_timeout = zero;
    assert!(config.validate_timeouts().is_err());
    config.channel_open_timeout = Span::from_secs(DEFAULT_CHANNEL_OPEN_SECS);
    config.channel_request_timeout = zero;
    assert!(config.validate_timeouts().is_err());
    config.channel_request_timeout = Span::from_secs(DEFAULT_CHANNEL_REQUEST_SECS);
    config.authentication_timeout = zero;
    assert!(config.validate_timeouts().is_err());
    assert_eq!(
        config.validate_timeouts().unwrap_err().problem,
        ConfigProblem::AuthenticationTimeout
    );
}

#[test]
fn snapshot_redacts_proxy_command_text() {
    let mut config = ConnectionConfig::new("target.example", "deploy");
    config.proxy_command = Some("secret-bearing-proxy-command".to_owned());

    let snapshot = config.snapshot();
    assert_eq!(snapshot.route, ConnectionRouteSnapshot::ProxyCommand);
    assert!(!format!("{snapshot:?}").contains("secret-bearing-proxy-command"));
}

#[test]
fn snapshot_preserves_proxy_jump_route() {
    let mut config = ConnectionConfig::new("target.example", "deploy");
    config.jump_hosts.push(JumpHost {
        alias: "bastion".to_owned(),
        host: "bastion.example".to_owned(),
        port: 2222,
        username: "jump".to_owned(),
        identity_files: vec!["/tmp/id_ed25519".to_owned()],
        host_key_policy: HostKeyPolicy::Strict,
        known_hosts_file: Some("/tmp/known_hosts".to_owned()),
    });

    let snapshot = config.snapshot();
    assert!(matches!(
        snapshot.route,
        ConnectionRouteSnapshot::ProxyJump(ref hops) if hops.len() == 1
    ));
}

#[test]
fn proxy_jump_route_wins_when_both_route_fields_are_populated() {
    let mut config = ConnectionConfig::new("target.example", "deploy");
    config.proxy_command = Some("nc target.example 22".to_owned());
    config.jump_hosts.push(bastion(22));

    assert!(matches!(
        config.snapshot().route,
        ConnectionRouteSnapshot::ProxyJump(ref hops) if hops.len() == 1
    ));
}

#[test]
fn settings_come_from_the_configuration_and_the_arguments() {
    let mut book = OpenSshBook::unread("local");
    let mut record = OpenSshRecord::default_for("prod");
    record.hostname = Some("10.0.0.9".to_owned());
    record.user = Some("deploy".to_owned());
    record.port = Some(2200);
    record.proxy_jump = Some("edge".to_owned());
    record.strict_host_key_checking = Some(true);
    book.note("prod", record);
    let mut edge = OpenSshRecord::default_for("edge");
    edge.hostname = Some("10.0.0.1".to_owned());
    book.note("edge", edge);
    let config = ConnectionConfig::from_openssh("prod", None, None, &book).unwrap();
    assert_eq!(config.alias, "prod");
    assert_eq!(config.host, "10.0.0.9");
    assert_eq!(config.username, "deploy");
    assert_eq!(config.port, 2200);
    assert_eq!(config.host_key_policy, HostKeyPolicy::Strict);
    assert_eq!(config.jump_hosts.len(), 1);
    assert_eq!(config.jump_hosts[0].host, "10.0.0.1");
    assert_eq!(config.jump_hosts[0].username, "local");
    let config = ConnectionConfig::from_openssh("prod", Some("root"), Some(22), &book).unwrap();
    assert_eq!(config.username, "root");
    assert_eq!(config.port, 22);
    let config = config.with_proxy_jump("none", &book).unwrap();
    assert!(config.jump_hosts.is_empty());
    let unread = ConnectionConfig::from_openssh("other", None, None, &book);
    assert_eq!(unread.unwrap_err().problem, ConfigProblem::Unread);
}

#[test]
fn endpoint_format_is_ipv6_safe() {
    assert_eq!(endpoint("server.example", 22), "server.example:22");
    assert_eq!(endpoint("2001:db8::1", 2222), "[2001:db8::1]:2222");
    assert_eq!(endpoint("[2001:db8::1]", 22), "[2001:db8::1]:22");
}

#[test]
fn account_name_is_stable() {
    let config = ConnectionConfig::new("server.example", "deploy");
    assert_eq!(account_name(&config), "deploy@server.example:22");
}

#[test]
fn empty_manager_has_zero_connections_and_safe_snapshot() {
    let manager = default_manager();
    assert!(manager.is_empty());
    assert_eq!(manager.len(), 0);
    assert!(manager.connection_snapshots(&[], 0).is_empty());

    let snapshot = manager.snapshot(&[]);
    assert_eq!(snapshot.total_connections, 0);
    assert_eq!(snapshot.in_use_connections, 0);
    assert_eq!(snapshot.active_leases, 0);
    assert_eq!(snapshot.max_connections, 64);
    assert_eq!(snapshot.available_capacity, 64);
}

#[test]
fn defaults_are_bounded() {
    let config = ConnectionManagerConfig::default();
    assert!(config.max_connections > 0);
    assert!(!config.idle_timeout.is_zero());
}

#[test]
fn zero_capacity_is_strictly_bounded_and_observable() {
    let mut manager = ConnectionManager::new(ConnectionManagerConfig {
        max_connections: 0,
        idle_timeout: Span::from_secs(1),
    });
    let snapshot = manager.snapshot(&[]);
    assert_eq!(snapshot.active_leases, 0);
    assert_eq!(snapshot.max_connections, 0);
    assert_eq!(snapshot.available_capacity, 0);
    let config = ConnectionConfig::new("server.example", "deploy");
    let full = manager.begin_connect(
        "prod",
        &config,
        &AuthenticationReuseKey::Agent,
        &[],
        &[],
        0,
    );
    assert_eq!(full, Err(PoolProblem::CapacityReached));
}

#[test]
fn exact_config_and_private_key_source_are_reusable() {
    let config = ConnectionConfig::new("server.example", "deploy");
    let auth = AuthenticationReuseKey::PrivateKey("id_ed25519".to_owned());
    ensure_reusable(&config, &config, &auth, &auth).unwrap();
}

#[test]
fn same_name_with_different_transport_config_is_rejected() {
    let existing = ConnectionConfig::new("server-a.example", "deploy");
    let mut requested = existing.copy();
    requested.port = 2222;
    let auth = AuthenticationReuseKey::Agent;

    let error = ensure_reusable(&existing, &requested, &auth, &auth).unwrap_err();
    assert!(error.message().contains("different SSH configuration"));
}

#[test]
fn stricter_host_key_policy_cannot_reuse_old_transport() {
    let mut existing = ConnectionConfig::new("server.example", "deploy");
    existing.host_key_policy = HostKeyPolicy::Insecure;
    let mut requested = existing.copy();
    requested.host_key_policy = HostKeyPolicy::Strict;
    let auth = AuthenticationReuseKey::Agent;

    assert!(ensure_reusable(&existing, &requested, &auth, &auth).is_err());
}

#[test]
fn different_private_key_source_is_rejected() {
    let config = ConnectionConfig::new("server.example", "deploy");
    let existing = AuthenticationReuseKey::PrivateKey("deploy_key".to_owned());
    let requested = AuthenticationReuseKey::PrivateKey("admin_key".to_owned());

    let error = ensure_reusable(&config, &config, &existing, &requested).unwrap_err();
    assert!(error.message().contains("authentication source"));
}

#[test]
fn password_authentication_is_never_silently_reused() {
    let config = ConnectionConfig::new("server.example", "deploy");
    let non_reusable = AuthenticationReuseKey::NonReusable;

    assert!(ensure_reusable(&config, &config, &non_reusable, &non_reusable).is_err());
}

#[test]
fn same_name_connect_claim_is_single_flight_and_cancel_safe() {
    let mut manager = default_manager();
    let leader = match manager.claim_connect("prod") {
        ConnectClaim::Leader(leader) => leader,
        ConnectClaim::Wait => panic!("first claimant must lead"),
    };
    assert_eq!(manager.claim_connect("prod"), ConnectClaim::Wait);
    assert!(manager.drop_claim("prod", leader));
    assert!(!manager.drop_claim("prod", leader));
    assert!(matches!(
        manager.claim_connect("prod"),
        ConnectClaim::Leader(_)
    ));
}

#[test]
fn different_names_can_claim_connect_in_parallel() {
    let mut manager = default_manager();
    let first = manager.claim_connect("prod-a");
    let second = manager.claim_connect("prod-b");
    assert!(matches!(first, ConnectClaim::Leader(_)));
    assert!(matches!(second, ConnectClaim::Leader(_)));
}

#[test]
fn jump_manager_extension_keeps_non_reusable_password_semantics() {
    let key = Authentication::Password("secret".into()).reuse_key();
    assert_eq!(key, AuthenticationReuseKey::NonReusable);
}

#[test]
fn connections_are_set_up_once_and_reused() {
    let mut manager = default_manager();
    let config = ConnectionConfig::new("server.example", "deploy");
    let agent = AuthenticationReuseKey::Agent;
    let ticket = match manager.begin_connect("prod", &config, &agent, &[], &[], 10) {
        Ok(ConnectDecision::Connect(ticket)) => ticket,
        other => panic!("unexpected {other:?}"),
    };
    assert_eq!(
        manager.begin_connect("prod", &config, &agent, &[], &[], 11),
        Ok(ConnectDecision::Wait)
    );
    let installed = manager.finish_connect(
        "prod",
        ticket,
        ManagedConnection {
            id: 7,
            config: config.copy(),
            authentication: AuthenticationReuseKey::Agent,
            last_used: 12,
            active_leases: 0,
        },
        &[],
        12,
    );
    assert_eq!(installed, Some(Ok(Installed::Fresh)));
    assert_eq!(
        manager.begin_connect("prod", &config, &agent, &[], &[], 13),
        Ok(ConnectDecision::Reuse(7))
    );
    let mut other = config.copy();
    other.port = 2222;
    assert_eq!(
        manager.begin_connect("prod", &other, &agent, &[], &[], 14),
        Err(PoolProblem::DifferentConfiguration)
    );
    assert_eq!(
        manager.begin_connect("", &config, &agent, &[], &[], 14),
        Err(PoolProblem::EmptyName)
    );
    assert!(manager.acquire_lease(7, 15));
    assert_eq!(manager.snapshot(&[]).in_use_connections, 1);
    let late: u64 = 10_000_000_000_000;
    assert!(manager.prune_idle(&[], late).is_empty());
    assert!(manager.release_lease(7, 16));
    assert_eq!(manager.prune_idle(&[], late), vec![7]);
    assert!(manager.is_empty());
}

fn pool_of_one(active_leases: usize) -> ConnectionManager {
    let mut manager = ConnectionManager::new(ConnectionManagerConfig {
        max_connections: 1,
        idle_timeout: Span::from_secs(600),
    });
    let config = ConnectionConfig::new("server.example", "deploy");
    let ticket =
        match manager.begin_connect("prod", &config, &AuthenticationReuseKey::Agent, &[], &[], 1) {
            Ok(ConnectDecision::Connect(ticket)) => ticket,
            other => panic!("unexpected {other:?}"),
        };
    let connection = ManagedConnection {
        id: 7,
        config,
        authentication: AuthenticationReuseKey::Agent,
        last_used: 2,
        active_leases,
    };
    assert_eq!(
        manager.finish_connect("prod", ticket, connection, &[], 2),
        Some(Ok(Installed::Fresh))
    );
    assert_eq!(manager.snapshot(&[]).available_capacity, 0);
    manager
}

#[test]
fn a_dead_connection_makes_room_in_a_full_pool() {
    let config = ConnectionConfig::new("server.example", "deploy");
    let agent = AuthenticationReuseKey::Agent;
    let mut manager = pool_of_one(0);
    assert_eq!(
        manager.begin_connect("other", &config, &agent, &[7], &[], 3),
        Err(PoolProblem::CapacityReached)
    );
    assert!(matches!(
        manager.begin_connect("prod", &config, &agent, &[7], &[7], 3),
        Ok(ConnectDecision::Connect(_))
    ));
    assert!(!manager.release_capacity());

    let mut manager = pool_of_one(0);
    assert_eq!(manager.get("prod", &[7], 3), None);
    assert_eq!(manager.snapshot(&[]).available_capacity, 1);
}

#[test]
fn a_leased_connection_keeps_its_capacity_after_it_died() {
    let config = ConnectionConfig::new("server.example", "deploy");
    let agent = AuthenticationReuseKey::Agent;
    let mut manager = pool_of_one(1);
    assert_eq!(
        manager.begin_connect("prod", &config, &agent, &[7], &[], 3),
        Err(PoolProblem::CapacityReached)
    );
    assert!(manager.is_empty());
    assert!(manager.release_capacity());
    assert!(matches!(
        manager.begin_connect("prod", &config, &agent, &[], &[], 4),
        Ok(ConnectDecision::Connect(_))
    ));
}

#[test]
fn a_waiting_jump_host_is_asked_a_bounded_number_of_times() {
    let jump = bastion(22);
    let first = next_jump_request(&jump, 0, 2, 0).unwrap();
    assert_eq!(first.attempt, 1);
    assert!(!first.previous_failed);
    let last = next_jump_request(&jump, 0, 2, MAX_JUMP_AUTH_ATTEMPTS - 1).unwrap();
    assert_eq!(last.attempt, MAX_JUMP_AUTH_ATTEMPTS);
    assert!(last.previous_failed);
    assert!(next_jump_request(&jump, 0, 2, MAX_JUMP_AUTH_ATTEMPTS).is_none());
}

#[test]
fn jumps_come_before_the_target() {
    let mut config = ConnectionConfig::new("target.example", "deploy");
    config.jump_hosts.push(bastion(2222));
    let steps = connection_steps(&config);
    assert_eq!(steps.len(), 2);
    assert_eq!(steps[0].host, "bastion.example");
    assert!(!steps[0].through_previous);
    assert_eq!(steps[1].host, "target.example");
    assert!(steps[1].through_previous);
    assert_eq!(choose_transport(&config), Transport::Jumps);
    config.jump_hosts.clear();
    assert_eq!(choose_transport(&config), Transport::Direct);
    config.proxy_command = Some("nc %h %p".to_owned());
    assert_eq!(
        choose_transport(&config),
        Transport::Proxy("nc target.example 22".to_owned())
    );
    config.proxy_command = Some("none".to_owned());
    assert_eq!(choose_transport(&config), Transport::ProxyDisabled);
}

#[test]
fn commands_run_as_the_requested_user() {
    assert_eq!(command_for_user("ls -l", &RemoteUser::Current), "ls -l");
    assert_eq!(
        command_for_user("ls 'a b'", &RemoteUser::Sudo("root".to_owned())),
        "sudo -n -u root -- sh -lc 'ls '\"'\"'a b'\"'\"''"
    );
}

#[test]
fn output_is_gathered_by_stream() {
    let mut output = CommandOutput::default();
    output.absorb(&ChannelEvent::Data(b"out".to_vec()));
    output.absorb(&ChannelEvent::ExtendedData(b"err".to_vec()));
    output.absorb(&ChannelEvent::Data(b"put".to_vec()));
    output.absorb(&ChannelEvent::Other);
    assert_eq!(output.exit_status, None);
    output.absorb(&ChannelEvent::ExitStatus(3));
    assert_eq!(output.stdout, b"output".to_vec());
    assert_eq!(output.stderr, b"err".to_vec());
    assert_eq!(output.exit_status, Some(3));
}

#[test]
fn shells_end_with_the_channel() {
    let mut shell = ShellSession::new();
    assert!(shell.reads_input());
    assert_eq!(
        shell.step(ShellEvent::Input(b"ls\n".to_vec())),
        ShellAction::Send(b"ls\n".to_vec())
    );
    assert_eq!(shell.step(ShellEvent::InputEnd), ShellAction::SendEof);
    assert!(!shell.reads_input());
    assert_eq!(
        shell.step(ShellEvent::Output(b"x".to_vec())),
        ShellAction::Write(b"x".to_vec())
    );
    shell.step(ShellEvent::ExitStatus(4));
    assert_eq!(
        shell.step(ShellEvent::ChannelClosed),
        ShellAction::Finish(Some(4))
    );
}

#[test]
fn kinds_of_authentication_are_told_apart() {
    let password = Authentication::Password("secret".to_owned());
    assert_eq!(authentication_kind(&password), AuthenticationKind::Password);
    assert_eq!(authentication_kind(&password).as_str(), "password");
    let prompted = Authentication::KeyboardInteractive("secret".to_owned());
    assert_eq!(authentication_kind(&prompted).as_str(), "keyboard-interactive");
    assert_eq!(authentication_kind(&Authentication::Agent).as_str(), "agent");
}
