//! Host keys, host certificates, forwarded channels and SOCKS requests.

use kaduox_ssh::config::HostKeyPolicy;
use kaduox_ssh::diagnostics::HostKeyVerification;
use kaduox_ssh::forward::final_reply;
use kaduox_ssh::forward::loopback;
use kaduox_ssh::forward::negotiate_socks5;
use kaduox_ssh::forward::remote_port;
use kaduox_ssh::forward::ChannelOutcome;
use kaduox_ssh::forward::ForwardHandle;
use kaduox_ssh::forward::IpOctets;
use kaduox_ssh::forward::RemoteForwardHandle;
use kaduox_ssh::forward::SocksHost;
use kaduox_ssh::forward::SocksProblem;
use kaduox_ssh::forward::SocksStatus;
use kaduox_ssh::forward::SocksTarget;
use kaduox_ssh::forward::FORWARD_CHANNEL_OPEN_TIMEOUT_SECS;
use kaduox_ssh::forward::MAX_ACTIVE_FORWARD_CONNECTIONS;
use kaduox_ssh::forward::SOCKS_HANDSHAKE_TIMEOUT_SECS;
use kaduox_ssh::handler::check_server_key;
use kaduox_ssh::handler::server_key_info;
use kaduox_ssh::handler::settle_host_key;
use kaduox_ssh::handler::ChannelAnswer;
use kaduox_ssh::handler::ForwardTarget;
use kaduox_ssh::handler::HandlerState;
use kaduox_ssh::handler::HostKeyRefusal;
use kaduox_ssh::handler::HostKeyStep;
use kaduox_ssh::handler::KnownHost;
use kaduox_ssh::handler::MAX_SERVER_INITIATED_FORWARD_CHANNELS;
use kaduox_ssh::directories::Platform;
use kaduox_ssh::host_trust::default_known_hosts_path;
use kaduox_ssh::host_trust::host_patterns_match;
use kaduox_ssh::host_trust::host_principal_matches;
use kaduox_ssh::host_trust::known_hosts_fit;
use kaduox_ssh::host_trust::known_hosts_target;
use kaduox_ssh::host_trust::parse_host_patterns;
use kaduox_ssh::host_trust::HostKey;
use kaduox_ssh::host_trust::HostPatterns;
use kaduox_ssh::host_trust::HostTrustPolicy;
use kaduox_ssh::host_trust::HostTrustProblem;
use kaduox_ssh::host_trust::MAX_KNOWN_HOSTS_BYTES;
use russh::keys::ssh_key::certificate::Builder;
use russh::keys::ssh_key::certificate::CertType;
use russh::keys::ssh_key::private::Ed25519Keypair;
use russh::keys::PrivateKey;
use russh::keys::PublicKey;

const KEY: &str =
    "ssh-ed25519 AAAAC3NzaC1lZDI1NTE5AAAAIJdD7y3aLq454yWBdwLWbieU1ebz9/cu7/QEXn9OIeZJ";
const OTHER_KEY: &str =
    "ssh-ed25519 AAAAC3NzaC1lZDI1NTE5AAAAILIG2T/B0l0gaqj3puu510tu9N1OkQ4znY3LYuEm5zCF";
const HASHED_EXAMPLE_COM: &str = "|1|AQIDBAUGBwgJCgsMDQ4PEBESExQ=|qvtG0DaqrsqPDhV2Ni+wmYohchA=";
const HASHED_NONSTANDARD_PORT: &str =
    "|1|AQIDBAUGBwgJCgsMDQ4PEBESExQ=|6fK61BT8VzQZpCSeeHMpEDJJ8RM=";

fn patterns(text: &str) -> HostPatterns {
    parse_host_patterns(text).unwrap()
}

fn host_key(key: &PublicKey) -> HostKey {
    HostKey {
        algorithm: key.algorithm().as_str().to_owned(),
        blob: key.to_bytes().unwrap(),
    }
}

fn openssh_key(text: &str) -> HostKey {
    host_key(&PublicKey::from_openssh(text).unwrap())
}

fn private_key(seed: u8) -> PrivateKey {
    PrivateKey::from(Ed25519Keypair::from_seed(&[seed; 32]))
}

fn certificate(kind: CertType, principal: &str, option: bool) -> Vec<u8> {
    let subject = private_key(1);
    let authority = private_key(2);
    let mut builder =
        Builder::new([7u8; 16].to_vec(), subject.public_key().clone(), 1_000, 2_000).unwrap();
    builder.serial(1).unwrap();
    builder.key_id("host").unwrap();
    builder.cert_type(kind).unwrap();
    builder.valid_principal(principal).unwrap();
    if option {
        builder.critical_option("force-command", "true").unwrap();
    }
    builder.sign(&authority).unwrap().to_bytes().unwrap()
}

fn authority_policy(host: &str, more: &str) -> HostTrustPolicy {
    let authority = private_key(2).public_key().to_openssh().unwrap();
    let contents = format!("@cert-authority *.example {authority}\n{more}");
    HostTrustPolicy::parse(host, 22, &contents).unwrap()
}

fn database() -> ForwardTarget {
    ForwardTarget {
        host: "db.internal".to_owned(),
        port: 5432,
    }
}

#[test]
fn clear_text_patterns_support_wildcards_and_negation() {
    assert!(host_patterns_match("api.prod.example", &patterns("*.prod.example")).unwrap());

    let negated = patterns("*.example,!api.prod.example");
    assert!(!host_patterns_match("api.prod.example", &negated).unwrap());

    let single = patterns("db?.example");
    assert!(host_patterns_match("db1.example", &single).unwrap());
    assert!(!host_patterns_match("db10.example", &single).unwrap());
}

#[test]
fn matching_is_ascii_case_insensitive() {
    let exact = patterns("prod.example");
    let wildcard = patterns("*.EXAMPLE");
    assert!(host_patterns_match("PROD.EXAMPLE", &exact).unwrap());
    assert!(host_patterns_match("prod.example", &wildcard).unwrap());
}

#[test]
fn hashed_marker_pattern_matches_exact_host_only() {
    let patterns = patterns(HASHED_EXAMPLE_COM);
    assert!(host_patterns_match("example.com", &patterns).unwrap());
    assert!(!host_patterns_match("EXAMPLE.COM", &patterns).unwrap());
    assert!(!host_patterns_match("other.example", &patterns).unwrap());
}

#[test]
fn hashed_marker_pattern_uses_nonstandard_port_bracket_form() {
    let patterns = patterns(HASHED_NONSTANDARD_PORT);
    assert!(host_patterns_match("[127.0.0.1]:40230", &patterns).unwrap());
    assert!(!host_patterns_match("127.0.0.1", &patterns).unwrap());
}

#[test]
fn certificate_principals_use_hostname_without_known_hosts_port_form() {
    assert!(host_principal_matches("prod.example", "prod.example"));
    assert!(host_principal_matches("api.prod.example", "*.prod.example"));
    assert!(!host_principal_matches(
        "prod.example",
        "[prod.example]:2222"
    ));
    assert!(!host_principal_matches("db10.example", "db?.example"));
}

#[test]
fn nonstandard_port_uses_openssh_bracket_form() {
    assert_eq!(known_hosts_target("Example.COM", 22), "Example.COM");
    assert_eq!(
        known_hosts_target("Example.COM", 2222),
        "[Example.COM]:2222"
    );
    let patterns = patterns("[example.com]:2222");
    assert!(host_patterns_match("[Example.COM]:2222", &patterns).unwrap());
}

#[test]
fn matching_ca_and_revoked_entries_are_classified() {
    let contents =
        format!("@cert-authority *.example.com {KEY}\n@revoked bad.example.com {OTHER_KEY}\n");
    let prod = HostTrustPolicy::parse("prod.example.com", 22, &contents).unwrap();
    assert!(prod.has_certificate_authority());
    assert!(!prod.is_revoked(&openssh_key(OTHER_KEY)));

    let bad = HostTrustPolicy::parse("bad.example.com", 22, &contents).unwrap();
    assert!(bad.has_certificate_authority());
    assert!(bad.is_revoked(&openssh_key(OTHER_KEY)));
}

#[test]
fn hashed_ca_and_revoked_entries_are_classified() {
    let contents = format!(
        "@cert-authority {HASHED_EXAMPLE_COM} {KEY}\n@revoked {HASHED_EXAMPLE_COM} {OTHER_KEY}\n"
    );
    let policy = HostTrustPolicy::parse("example.com", 22, &contents).unwrap();
    assert!(policy.has_certificate_authority());
    assert!(policy.is_revoked(&openssh_key(OTHER_KEY)));

    let unrelated = HostTrustPolicy::parse("other.example", 22, &contents).unwrap();
    assert!(!unrelated.has_certificate_authority());
    assert!(!unrelated.is_revoked(&openssh_key(OTHER_KEY)));
}

#[test]
fn hashed_marker_uses_known_hosts_nonstandard_port_target() {
    let contents = format!("@cert-authority {HASHED_NONSTANDARD_PORT} {KEY}\n");
    let matching = HostTrustPolicy::parse("127.0.0.1", 40230, &contents).unwrap();
    assert!(matching.has_certificate_authority());

    let wrong_port = HostTrustPolicy::parse("127.0.0.1", 22, &contents).unwrap();
    assert!(!wrong_port.has_certificate_authority());
}

#[test]
fn malformed_hashed_security_markers_fail_closed() {
    let contents = format!("@revoked |1|not-base64|also-not-base64 {KEY}\n");
    assert!(HostTrustPolicy::parse("prod.example", 22, &contents).is_err());
}

#[test]
fn unrelated_marker_entries_do_not_apply() {
    let contents = format!("@cert-authority other.example {KEY}\n");
    let policy = HostTrustPolicy::parse("prod.example", 22, &contents).unwrap();
    assert!(!policy.has_certificate_authority());
}

#[test]
fn unknown_markers_fail_closed_even_for_other_hosts() {
    let contents = format!("# comment\n\n@future-marker other.example {KEY}\n");
    let refused = HostTrustPolicy::parse("prod.example", 22, &contents);
    assert!(refused.is_err());
    let error = refused.unwrap_err();
    assert_eq!(error.problem, HostTrustProblem::UnknownMarker);
    assert_eq!(error.line, 3);
}

#[test]
fn duplicate_keys_are_collapsed() {
    let contents =
        format!("@cert-authority prod.example {KEY}\n@cert-authority prod.example {KEY}\n");
    let policy = HostTrustPolicy::parse("prod.example", 22, &contents).unwrap();
    assert_eq!(policy.trusted_certificate_authorities.len(), 1);
    assert_eq!(
        policy.trusted_certificate_authorities[0],
        openssh_key(KEY)
    );
}

#[test]
fn incomplete_marker_lines_are_refused() {
    for (line, problem) in [
        ("@revoked", HostTrustProblem::NoPatterns),
        ("@revoked *.example", HostTrustProblem::NoAlgorithm),
        ("@revoked *.example ssh-ed25519", HostTrustProblem::NoKey),
        ("@revoked *.example ssh-ed25519 !!!", HostTrustProblem::BadKey),
    ] {
        let refused = HostTrustPolicy::parse("prod.example", 22, line);
        assert_eq!(refused.unwrap_err().problem, problem, "{line}");
    }
    assert_eq!(
        host_patterns_match("a", &HostPatterns::Patterns(vec!["!".to_owned()])),
        Err(HostTrustProblem::EmptyNegation)
    );
}

#[test]
fn certificates_of_a_trusted_authority_are_accepted() {
    let policy = authority_policy("prod.example", "");
    let good = certificate(CertType::Host, "prod.example", false);
    assert_eq!(
        policy.verify_host_certificate("prod.example", &good, 1_500),
        Ok(())
    );
    assert_eq!(
        policy.verify_host_certificate("other.example", &good, 1_500),
        Err(HostTrustProblem::WrongHost)
    );
    for late in [999, 2_000] {
        assert_eq!(
            policy.verify_host_certificate("prod.example", &good, late),
            Err(HostTrustProblem::InvalidCertificate)
        );
    }
    let user = certificate(CertType::User, "prod.example", false);
    assert_eq!(
        policy.verify_host_certificate("prod.example", &user, 1_500),
        Err(HostTrustProblem::UserCertificate)
    );
    let limited = certificate(CertType::Host, "prod.example", true);
    assert_eq!(
        policy.verify_host_certificate("prod.example", &limited, 1_500),
        Err(HostTrustProblem::CriticalOptions)
    );
    assert_eq!(
        policy.verify_host_certificate("prod.example", b"nothing", 1_500),
        Err(HostTrustProblem::UnreadableCertificate)
    );
}

#[test]
fn certificates_need_a_trusted_authority() {
    let good = certificate(CertType::Host, "prod.example", false);
    assert_eq!(
        HostTrustPolicy::default().verify_host_certificate("prod.example", &good, 1_500),
        Err(HostTrustProblem::NoAuthority)
    );
    let contents = format!("@cert-authority *.example {KEY}\n");
    let other = HostTrustPolicy::parse("prod.example", 22, &contents).unwrap();
    assert_eq!(
        other.verify_host_certificate("prod.example", &good, 1_500),
        Err(HostTrustProblem::InvalidCertificate)
    );
    let authority = private_key(2).public_key().to_openssh().unwrap();
    let revoked = authority_policy("prod.example", &format!("@revoked * {authority}\n"));
    assert_eq!(
        revoked.verify_host_certificate("prod.example", &good, 1_500),
        Err(HostTrustProblem::RevokedAuthority)
    );
    let subject = private_key(1).public_key().to_openssh().unwrap();
    let revoked = authority_policy("prod.example", &format!("@revoked * {subject}\n"));
    assert_eq!(
        revoked.verify_host_certificate("prod.example", &good, 1_500),
        Err(HostTrustProblem::RevokedKey)
    );
}

#[test]
fn revoked_keys_are_refused_under_every_policy() {
    let contents = format!("@revoked prod.example {OTHER_KEY}\n");
    let trust = HostTrustPolicy::parse("prod.example", 22, &contents).unwrap();
    for policy in [
        HostKeyPolicy::Strict,
        HostKeyPolicy::AcceptNew,
        HostKeyPolicy::Insecure,
    ] {
        assert_eq!(
            check_server_key(
                policy,
                &trust,
                "prod.example",
                &openssh_key(OTHER_KEY),
                None,
                0
            ),
            HostKeyStep::Refuse(HostKeyRefusal::Revoked)
        );
    }
    assert_eq!(
        check_server_key(
            HostKeyPolicy::Strict,
            &trust,
            "prod.example",
            &openssh_key(KEY),
            None,
            0
        ),
        HostKeyStep::LookUp
    );
    assert_eq!(
        check_server_key(
            HostKeyPolicy::Insecure,
            &trust,
            "prod.example",
            &openssh_key(KEY),
            None,
            0
        ),
        HostKeyStep::Accept(HostKeyVerification::Insecure)
    );
}

#[test]
fn unknown_keys_are_learned_only_where_that_is_allowed() {
    assert_eq!(
        settle_host_key(HostKeyPolicy::AcceptNew, KnownHost::Unknown),
        HostKeyStep::Learn
    );
    assert_eq!(
        settle_host_key(HostKeyPolicy::Strict, KnownHost::Unknown),
        HostKeyStep::Refuse(HostKeyRefusal::Unknown)
    );
    assert_eq!(
        settle_host_key(HostKeyPolicy::AcceptNew, KnownHost::Changed),
        HostKeyStep::Refuse(HostKeyRefusal::Changed)
    );
    assert_eq!(
        settle_host_key(HostKeyPolicy::Strict, KnownHost::Known),
        HostKeyStep::Accept(HostKeyVerification::Known)
    );
}

#[test]
fn keys_are_told_by_their_fingerprint() {
    let key = openssh_key(KEY);
    let info = server_key_info(&key, HostKeyVerification::Known).unwrap();
    assert_eq!(info.algorithm, "ssh-ed25519");
    assert!(info.fingerprint_sha256.starts_with("SHA256:"));
    assert_eq!(
        info.fingerprint_sha256,
        PublicKey::from_openssh(KEY)
            .unwrap()
            .fingerprint(russh::keys::HashAlg::Sha256)
            .to_string()
    );
    let broken = HostKey {
        algorithm: "ssh-ed25519".to_owned(),
        blob: vec![1, 2, 3],
    };
    assert!(server_key_info(&broken, HostKeyVerification::Known).is_none());
}

#[test]
fn known_hosts_files_are_bounded_and_found() {
    assert!(known_hosts_fit(MAX_KNOWN_HOSTS_BYTES));
    assert!(!known_hosts_fit(MAX_KNOWN_HOSTS_BYTES + 1));
    assert_eq!(
        default_known_hosts_path(Some("/home/u"), Platform::Unix),
        Some("/home/u/.ssh/known_hosts".to_owned())
    );
    assert_eq!(
        default_known_hosts_path(Some("C:\\Users\\u"), Platform::Windows),
        Some("C:\\Users\\u\\.ssh\\known_hosts".to_owned())
    );
    assert_eq!(default_known_hosts_path(None, Platform::Unix), None);
}

#[test]
fn explicit_remote_forward_does_not_fall_back_by_port() {
    let mut state = HandlerState::default();
    state.register_remote_forward("127.0.0.1".to_owned(), 2200, database());

    assert!(state.remote_forward("127.0.0.1", 2200).is_some());
    assert!(state.remote_forward("10.0.0.5", 2200).is_none());
}

#[test]
fn wildcard_remote_forward_accepts_server_connected_address() {
    let mut state = HandlerState::default();
    state.register_remote_forward("*".to_owned(), 2200, database());

    let target = state.remote_forward("192.0.2.10", 2200).unwrap();
    assert_eq!(target.host, "db.internal");
    assert_eq!(target.port, 5432);
}

#[test]
fn unregister_remote_forward_removes_route() {
    let mut state = HandlerState::default();
    state.register_remote_forward(
        "127.0.0.1".to_owned(),
        4040,
        ForwardTarget {
            host: "127.0.0.1".to_owned(),
            port: 8080,
        },
    );

    assert!(state.remote_forward("127.0.0.1", 4040).is_some());
    assert!(state.unregister_remote_forward("127.0.0.1", 4040).is_some());
    assert!(state.remote_forward("127.0.0.1", 4040).is_none());
}

#[test]
fn server_initiated_forward_channels_are_bounded() {
    let mut state = HandlerState::default();
    for _ in 0..MAX_SERVER_INITIATED_FORWARD_CHANNELS {
        assert!(state.try_acquire_server_forward_slot());
    }
    assert!(!state.try_acquire_server_forward_slot());
    state.server_forward_slots.release();
    assert!(state.try_acquire_server_forward_slot());
}

#[test]
fn forwarded_channels_lead_to_registered_targets_only() {
    let mut state = HandlerState::default();
    assert_eq!(
        state.open_forwarded("127.0.0.1", 2200),
        ChannelAnswer::Prohibited
    );
    state.register_remote_forward("127.0.0.1".to_owned(), 2200, database());
    assert_eq!(
        state.open_forwarded("127.0.0.1", 2200),
        ChannelAnswer::Connect(database())
    );
    assert_eq!(
        state.open_agent(Some("/run/agent.sock")),
        ChannelAnswer::Prohibited
    );
    state.agent_forwarding = true;
    assert_eq!(
        state.open_agent(Some("/run/agent.sock")),
        ChannelAnswer::ConnectAgent("/run/agent.sock".to_owned())
    );
}

#[test]
fn forward_resource_limits_are_nonzero() {
    assert!(MAX_ACTIVE_FORWARD_CONNECTIONS > 0);
    assert!(FORWARD_CHANNEL_OPEN_TIMEOUT_SECS != 0);
    assert!(SOCKS_HANDSHAKE_TIMEOUT_SECS != 0);
}

#[test]
fn forward_handle_reports_actual_binding_and_closes_explicitly() {
    let handle = ForwardHandle {
        address: loopback(43123),
    };
    assert_eq!(handle.bound_addr(), loopback(43123));
    assert_eq!(handle.bound_port(), 43123);
}

#[test]
fn remote_forwards_are_retired_once() {
    let mut handle = RemoteForwardHandle {
        address: "127.0.0.1".to_owned(),
        bind_port: 8080,
        active: true,
    };
    assert_eq!(handle.port(), 8080);
    assert_eq!(handle.bind_address(), "127.0.0.1");
    assert!(handle.retire());
    assert!(!handle.retire());
    assert_eq!(remote_port(0, 40000), Some(40000));
    assert_eq!(remote_port(0, 70000), None);
    assert_eq!(remote_port(22, 0), Some(22));
}

#[test]
fn socks5_negotiation_parses_domain_connect() {
    let mut request = vec![5, 1, 0, 5, 1, 0, 3, 11];
    request.extend_from_slice(b"example.com");
    request.extend_from_slice(&80_u16.to_be_bytes());

    let (sent, status) = negotiate_socks5(&request);
    assert_eq!(
        status,
        SocksStatus::Ready(SocksTarget {
            host: SocksHost::Domain("example.com".to_owned()),
            port: 80,
        })
    );
    assert_eq!(sent, vec![5, 0]);
}

#[test]
fn socks5_negotiation_rejects_missing_no_auth_method() {
    let (sent, status) = negotiate_socks5(&[5, 1, 2]);
    let SocksStatus::Refused(error) = status else {
        panic!("unexpected status")
    };
    assert!(error.message().contains("no-auth"));
    assert_eq!(sent, vec![5, 0xff]);
}

#[test]
fn socks5_negotiation_rejects_nonzero_reserved_byte() {
    let (_, status) = negotiate_socks5(&[5, 1, 0, 5, 1, 1, 1, 127, 0, 0, 1, 0, 80]);
    let SocksStatus::Refused(error) = status else {
        panic!("unexpected status")
    };
    assert!(error.message().contains("reserved byte"));
}

#[test]
fn socks5_negotiation_replies_to_unsupported_address_type() {
    let (sent, status) = negotiate_socks5(&[5, 1, 0, 5, 1, 0, 9]);
    let SocksStatus::Refused(error) = status else {
        panic!("unexpected status")
    };
    assert!(error.message().contains("address type"));
    assert_eq!(&sent[..2], &[5, 0]);
    assert_eq!(&sent[2..], &[5, 8, 0, 1, 0, 0, 0, 0, 0, 0]);
}

#[test]
fn socks5_requests_come_in_pieces() {
    let whole: [u8; 13] = [5, 1, 0, 5, 1, 0, 1, 127, 0, 0, 1, 0, 80];
    for taken in 0..whole.len() {
        let (_, status) = negotiate_socks5(&whole[..taken]);
        assert!(matches!(status, SocksStatus::NeedBytes(n) if n > 0));
    }
    let (_, status) = negotiate_socks5(&whole);
    assert_eq!(
        status,
        SocksStatus::Ready(SocksTarget {
            host: SocksHost::Address(IpOctets::V4 {
                a: 127,
                b: 0,
                c: 0,
                d: 1
            }),
            port: 80,
        })
    );
    for (bytes, problem) in [
        (&[4u8, 1][..], SocksProblem::Version),
        (&[5u8, 1, 0, 4, 1, 0, 1][..], SocksProblem::RequestVersion),
        (&[5u8, 1, 0, 5, 2, 0, 1][..], SocksProblem::Command),
        (&[5u8, 1, 0, 5, 1, 0, 3, 0][..], SocksProblem::EmptyDomain),
    ] {
        assert_eq!(negotiate_socks5(bytes).1, SocksStatus::Refused(problem));
    }
    let (_, status) = negotiate_socks5(&[5, 1, 0, 5, 1, 0, 3, 1, 0xff, 0, 80]);
    assert_eq!(status, SocksStatus::Refused(SocksProblem::DomainNotText));
}

#[test]
fn socks5_clients_hear_what_became_of_the_channel() {
    assert_eq!(final_reply(ChannelOutcome::Opened)[1], 0);
    assert_eq!(final_reply(ChannelOutcome::Refused).len(), 10);
    assert_ne!(final_reply(ChannelOutcome::Refused)[1], 0);
    assert_ne!(final_reply(ChannelOutcome::TimedOut)[1], 0);
}
