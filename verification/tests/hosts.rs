//! The host library: its text form, its rules, and how hosts are resolved.

use kaduox_ssh::codec::decode;
use kaduox_ssh::codec::encode;
use kaduox_ssh::config::HostKeyPolicy;
use kaduox_ssh::config::OpenSshBook;
use kaduox_ssh::config::OpenSshRecord;
use kaduox_ssh::host_catalog::parse_host_catalog;
use kaduox_ssh::import::import_openssh;
use kaduox_ssh::import::unique_chain_name;
use kaduox_ssh::model::HostDatabase;
use kaduox_ssh::model::HostProblem;
use kaduox_ssh::model::HostRecord;
use kaduox_ssh::model::InlineJump;
use kaduox_ssh::model::JumpChain;
use kaduox_ssh::model::JumpHop;
use kaduox_ssh::model::StoredAuthMethod;
use kaduox_ssh::model::StoredHostKeyPolicy;
use kaduox_ssh::model::validate_name;
use kaduox_ssh::model::validate_portable_name;
use kaduox_ssh::resolver::resolve_chain;
use kaduox_ssh::resolver::resolve_host;
use kaduox_ssh::directories::DirectoryVariables;
use kaduox_ssh::directories::Platform;
use kaduox_ssh::store::default_store_path;
use kaduox_ssh::store::HostStore;

fn routed(alias: &str, address: &str, user: &str, chain: &str) -> HostRecord {
    let mut record = HostRecord::new(alias, address, user);
    record.jump_chain = Some(chain.to_string());
    record
}

#[test]
fn round_trips_host_and_inline_chain() {
    let mut database = HostDatabase::default();
    let mut host = HostRecord::new("prod-db", "10.0.0.15", "deploy");
    host.groups = vec!["prod".into(), "database".into()];
    host.tags = vec!["critical".into()];
    host.note = Some("line one\nline two".into());
    host.jump_chain = Some("prod-edge".into());
    host.stats.connection_count = 7;
    host.stats.last_auth_method = Some(StoredAuthMethod::Agent);
    database.hosts.insert(host.alias.clone(), host);
    database.chains.insert(
        "prod-edge".into(),
        JumpChain {
            name: "prod-edge".into(),
            hops: vec![JumpHop::Inline(InlineJump {
                alias: "edge-1".into(),
                host: "gateway.example.com".into(),
                port: 2222,
                user: "jump".into(),
                identity_file: Some("/keys/jump".into()),
                host_key_policy: StoredHostKeyPolicy::Strict,
            })],
        },
    );

    let encoded = encode(&database).unwrap();
    let decoded = decode(&encoded).unwrap();
    assert_eq!(decoded, database);
}

#[test]
fn rejects_unknown_field() {
    let input = r#"
version = 1
[[host]]
alias = "prod"
address = "prod.example"
user = "deploy"
secret_password = "nope"
"#;
    assert!(decode(input).is_err());
}

#[test]
fn comments_inside_strings_are_not_stripped() {
    let input = r#"
version = 1
[[host]]
alias = "prod"
address = "prod.example"
user = "deploy"
note = "ticket #123"
"#;
    let database = decode(input).unwrap();
    assert_eq!(
        database.hosts.get("prod").unwrap().note.as_deref(),
        Some("ticket #123")
    );
}

#[test]
fn generated_chain_names_are_portable() {
    let store = HostStore::open("/definitely/not/created/kaduox-test.toml", None).unwrap();
    let name = unique_chain_name(&store, "prod-db");
    assert_eq!(name, "openssh-prod-db-jump");
    validate_name(&name, "chain").unwrap();
}

#[test]
fn rejects_self_routing_loop() {
    let mut database = HostDatabase::default();
    database
        .hosts
        .insert("prod".into(), routed("prod", "10.0.0.10", "deploy", "edge"));
    database.chains.insert(
        "edge".into(),
        JumpChain {
            name: "edge".into(),
            hops: vec![JumpHop::Host("prod".into())],
        },
    );
    assert!(database.validate().is_err());
    assert_eq!(
        database.validate().unwrap_err().problem,
        HostProblem::RoutingLoop
    );
}

#[test]
fn rejects_more_than_eight_hops() {
    let chain = JumpChain {
        name: "too-deep".into(),
        hops: (0..9)
            .map(|index| JumpHop::OpenSshAlias(format!("hop-{index}")))
            .collect(),
    };
    assert!(chain.validate().is_err());
    assert_eq!(chain.validate().unwrap_err().problem, HostProblem::TooManyHops);
}

#[test]
fn friendly_names_roundtrip_and_resolve_as_ssh_endpoints() {
    let mut db = HostDatabase::default();
    let jump = "ubantu linux（local）";
    let target = "云服务器 (123)";
    let chain = "本机 经 Ubuntu";
    let mut hop = HostRecord::new(jump, "192.0.2.10", "jump-user");
    hop.groups = vec!["本地 机器".into()];
    hop.tags = vec!["Linux（测试）".into()];
    db.hosts.insert(jump.into(), hop);
    db.chains.insert(
        chain.into(),
        JumpChain {
            name: chain.into(),
            hops: vec![JumpHop::Host(jump.into())],
        },
    );
    let mut destination = HostRecord::new(target, "192.0.2.20", "target-user");
    destination.jump_chain = Some(chain.into());
    db.hosts.insert(target.into(), destination);
    let encoded = encode(&db).unwrap();
    let decoded = decode(&encoded).unwrap();
    assert_eq!(decoded, db);
    let book = OpenSshBook::unconfigured("local");
    let config = resolve_host(&decoded, target, None, None, &book).unwrap().config;
    assert_eq!(config.alias, target);
    assert_eq!(config.host, "192.0.2.20");
    assert_eq!(config.username, "target-user");
    assert_eq!(config.jump_hosts[0].alias, jump);
    assert_eq!(config.jump_hosts[0].host, "192.0.2.10");
    assert_eq!(config.jump_hosts[0].username, "jump-user");
    assert!(config.proxy_command.is_none());
    assert_eq!(config.jump_hosts[0].port, 22);
}

#[test]
fn named_chain_preserves_order() {
    let mut db = HostDatabase::default();
    db.hosts.insert(
        "bastion".into(),
        HostRecord::new("bastion", "192.0.2.10", "jump"),
    );
    db.hosts.insert(
        "target".into(),
        routed("target", "192.0.2.20", "deploy", "prod"),
    );
    db.chains.insert(
        "prod".into(),
        JumpChain {
            name: "prod".into(),
            hops: vec![
                JumpHop::Host("bastion".into()),
                JumpHop::Inline(InlineJump {
                    alias: "inner".into(),
                    host: "192.0.2.11".into(),
                    port: 22,
                    user: "jump2".into(),
                    identity_file: None,
                    host_key_policy: StoredHostKeyPolicy::Strict,
                }),
            ],
        },
    );
    let book = OpenSshBook::unconfigured("local");
    let hops = resolve_chain(&db, "target", "prod", &book).unwrap();
    assert_eq!(hops.len(), 2);
    assert_eq!(hops[0].alias, "bastion");
    assert_eq!(hops[1].alias, "inner");
}

#[test]
fn save_and_reload_preserves_host() {
    let path = "/tmp/kaduox-host-store-test/hosts.toml";
    let mut store = HostStore::open(path, None).unwrap();
    store
        .insert_host(HostRecord::new("prod", "10.0.0.1", "deploy"))
        .unwrap();
    let text = store.save().unwrap();
    let loaded = HostStore::open(path, Some(&text)).unwrap();
    assert_eq!(loaded.host("prod").unwrap().address, "10.0.0.1");
    assert_eq!(loaded.path(), path);
}

#[test]
fn statistics_increment_checked() {
    let mut store = HostStore::open("/tmp/stats/hosts.toml", None).unwrap();
    store
        .insert_host(HostRecord::new("prod", "10.0.0.1", "deploy"))
        .unwrap();
    store
        .record_success("prod", StoredAuthMethod::Agent, 1_700_000_000)
        .unwrap();
    let host = store.host("prod").unwrap();
    assert_eq!(host.stats.connection_count, 1);
    assert_eq!(host.stats.last_auth_method, Some(StoredAuthMethod::Agent));
    assert_eq!(host.stats.last_connected_unix, Some(1_700_000_000));
}

#[test]
fn failed_first_upsert_rolls_back_inserted_alias() {
    let mut store = HostStore::open("/tmp/rollback/hosts.toml", None).unwrap();
    let invalid = routed("prod", "10.0.0.1", "deploy", "missing");
    assert!(store.upsert_host(invalid).is_err());
    assert!(store.host("prod").is_none());
}

#[test]
fn a_full_counter_is_left_alone() {
    let mut store = HostStore::open("/tmp/hosts.toml", None).unwrap();
    let mut host = HostRecord::new("prod", "10.0.0.1", "deploy");
    host.stats.connection_count = u64::MAX;
    store.insert_host(host).unwrap();
    let failed = store.record_success("prod", StoredAuthMethod::Auto, 5);
    assert_eq!(failed.unwrap_err().problem, HostProblem::CounterOverflow);
    let host = store.host("prod").unwrap();
    assert_eq!(host.stats.connection_count, u64::MAX);
    assert_eq!(host.stats.last_connected_unix, None);
    let unknown = store.record_success("other", StoredAuthMethod::Auto, 5);
    assert_eq!(unknown.unwrap_err().problem, HostProblem::HostUnknown);
}

#[test]
fn hosts_and_chains_in_use_stay() {
    let mut store = HostStore::open("/tmp/hosts.toml", None).unwrap();
    store
        .insert_host(HostRecord::new("bastion", "10.0.0.1", "jump"))
        .unwrap();
    store
        .insert_chain(JumpChain {
            name: "edge".into(),
            hops: vec![JumpHop::Host("bastion".into())],
        })
        .unwrap();
    store
        .insert_host(routed("prod", "10.0.0.2", "deploy", "edge"))
        .unwrap();
    let taken = store.insert_host(HostRecord::new("prod", "10.0.0.9", "x"));
    assert_eq!(taken.unwrap_err().problem, HostProblem::HostExists);
    assert_eq!(
        store.remove_host("bastion").unwrap_err().problem,
        HostProblem::HostReferenced
    );
    assert_eq!(
        store.remove_chain("edge").unwrap_err().problem,
        HostProblem::ChainBound
    );
    assert_eq!(
        store.remove_chain("none").unwrap_err().problem,
        HostProblem::ChainUnknown
    );
    store.remove_host("prod").unwrap();
    assert_eq!(store.remove_chain("edge").unwrap().hops.len(), 1);
    assert_eq!(store.remove_host("bastion").unwrap().address, "10.0.0.1");
    assert!(store.database().hosts.is_empty());
}

#[test]
fn recently_used_hosts_come_first() {
    let mut store = HostStore::open("/tmp/hosts.toml", None).unwrap();
    for alias in ["charlie", "alpha", "bravo", "delta"] {
        store
            .insert_host(HostRecord::new(alias, "10.0.0.1", "deploy"))
            .unwrap();
    }
    store
        .record_success("delta", StoredAuthMethod::Agent, 20)
        .unwrap();
    store
        .record_success("bravo", StoredAuthMethod::Agent, 30)
        .unwrap();
    let order: Vec<&str> = store
        .hosts_recent_first()
        .iter()
        .map(|host| host.alias.as_str())
        .collect();
    assert_eq!(order, vec!["bravo", "delta", "alpha", "charlie"]);
}

#[test]
fn names_are_checked() {
    assert_eq!(
        validate_name("", "alias").unwrap_err().problem,
        HostProblem::NameLength
    );
    assert_eq!(
        validate_name(&"a".repeat(129), "alias").unwrap_err().problem,
        HostProblem::NameLength
    );
    assert!(validate_name("云服务器 (123)", "alias").is_ok());
    assert_eq!(
        validate_portable_name("two words", "tag").unwrap_err().problem,
        HostProblem::NameCharacters
    );
    assert!(validate_portable_name("prod_db-1.a", "tag").is_ok());
}

#[test]
fn records_are_checked() {
    let mut record = HostRecord::new("prod", "10.0.0.1", "deploy");
    record.port = 0;
    assert_eq!(record.validate().unwrap_err().problem, HostProblem::ZeroPort);
    let mut record = HostRecord::new("prod", "10.0.0.1", "deploy");
    record.groups = vec!["a".into(), "a".into()];
    assert_eq!(
        record.validate().unwrap_err().problem,
        HostProblem::DuplicateLabel
    );
    let mut record = HostRecord::new("prod", "10.0.0.1", "deploy");
    record.note = Some("a\0b".into());
    assert_eq!(record.validate().unwrap_err().problem, HostProblem::TextNul);
    let record = HostRecord::new("prod", "", "deploy");
    assert_eq!(
        record.validate().unwrap_err().problem,
        HostProblem::EndpointLength
    );
    let chain = JumpChain {
        name: "edge".into(),
        hops: vec![],
    };
    assert_eq!(chain.validate().unwrap_err().problem, HostProblem::EmptyChain);
}

#[test]
fn stored_names_read_back() {
    for policy in [
        StoredHostKeyPolicy::Strict,
        StoredHostKeyPolicy::AcceptNew,
        StoredHostKeyPolicy::Insecure,
    ] {
        assert_eq!(StoredHostKeyPolicy::parse(policy.as_str()).unwrap(), policy);
    }
    for method in [
        StoredAuthMethod::Agent,
        StoredAuthMethod::PrivateKey,
        StoredAuthMethod::Password,
        StoredAuthMethod::KeyboardInteractive,
        StoredAuthMethod::Auto,
    ] {
        assert_eq!(StoredAuthMethod::parse(method.as_str()).unwrap(), method);
    }
    assert_eq!(StoredAuthMethod::PrivateKey.as_str(), "private-key");
    assert_eq!(
        StoredAuthMethod::parse("token").unwrap_err().problem,
        HostProblem::UnknownAuthMethod
    );
    assert_eq!(
        StoredHostKeyPolicy::parse("maybe").unwrap_err().problem,
        HostProblem::UnknownHostKeyPolicy
    );
}

#[test]
fn store_paths_follow_the_environment() {
    let mut variables = DirectoryVariables {
        home: Some("/home/u".to_string()),
        xdg_config_home: Some("/cfg".to_string()),
        app_data: Some("C:\\AppData".to_string()),
        ..DirectoryVariables::default()
    };
    assert_eq!(
        default_store_path(Platform::Unix, &variables),
        Some("/cfg/kaduox-ssh/hosts.toml".to_string())
    );
    assert_eq!(
        default_store_path(Platform::MacOs, &variables),
        Some("/home/u/Library/Application Support/Kaduox-SSH/hosts.toml".to_string())
    );
    assert_eq!(
        default_store_path(Platform::Windows, &variables),
        Some("C:\\AppData\\Kaduox-SSH\\hosts.toml".to_string())
    );
    variables.xdg_config_home = Some(String::new());
    variables.app_data = None;
    assert_eq!(
        default_store_path(Platform::Unix, &variables),
        Some("/home/u/.config/kaduox-ssh/hosts.toml".to_string())
    );
    assert_eq!(default_store_path(Platform::Windows, &variables), None);
    variables.home = None;
    assert_eq!(default_store_path(Platform::Unix, &variables), None);
    assert_eq!(default_store_path(Platform::MacOs, &variables), None);
}

#[test]
fn imports_keep_what_is_there() {
    let mut store = HostStore::open("/tmp/hosts.toml", None).unwrap();
    store
        .insert_host(HostRecord::new("web", "10.9.9.9", "kept"))
        .unwrap();
    let catalog = parse_host_catalog("Host web db\n", None);
    let mut book = OpenSshBook::unread("me");
    for alias in ["web", "db"] {
        let mut record = OpenSshRecord::default_for(alias);
        record.hostname = Some(format!("{alias}.example.com"));
        record.user = Some("deploy".to_string());
        book.note(alias, record);
    }
    let report = import_openssh(&mut store, &catalog, &book).unwrap();
    assert_eq!(store.host("web").unwrap().address, "10.9.9.9");
    assert_eq!(store.host("db").unwrap().address, "db.example.com");
    assert_eq!(store.host("db").unwrap().user, "deploy");
    assert_eq!(report.imported_hosts, 1);
}

#[test]
fn stored_hosts_resolve_with_overrides() {
    let mut db = HostDatabase::default();
    let mut record = HostRecord::new("prod", "10.0.0.1", "deploy");
    record.identity_file = Some("/keys/prod".into());
    record.host_key_policy = StoredHostKeyPolicy::Strict;
    db.hosts.insert("prod".into(), record);
    let book = OpenSshBook::unconfigured("local");
    let config = resolve_host(&db, "prod", Some("root"), Some(2200), &book)
        .unwrap()
        .config;
    assert_eq!(config.username, "root");
    assert_eq!(config.port, 2200);
    assert_eq!(config.identity_files, vec!["/keys/prod".to_string()]);
    assert_eq!(config.host_key_policy, HostKeyPolicy::Strict);
}

#[test]
fn chains_are_added_and_replaced() {
    let variables = DirectoryVariables {
        xdg_config_home: Some("/cfg".to_string()),
        ..DirectoryVariables::default()
    };
    let mut store = HostStore::open_default(Platform::Unix, &variables, None)
        .unwrap()
        .unwrap();
    store.upsert_host(HostRecord::new("edge", "10.0.0.1", "me")).unwrap();
    store.upsert_host(HostRecord::new("inner", "10.0.0.2", "me")).unwrap();
    let first = JumpChain {
        name: "route".into(),
        hops: vec![JumpHop::Host("edge".into())],
    };
    let second = JumpChain {
        name: "route".into(),
        hops: vec![JumpHop::Host("edge".into()), JumpHop::Host("inner".into())],
    };
    let broken = JumpChain {
        name: "route".into(),
        hops: vec![JumpHop::Host("nowhere".into())],
    };
    assert_eq!(store.upsert_chain(first.copy()).unwrap(), None);
    assert_eq!(store.upsert_chain(second.copy()).unwrap(), Some(first));
    assert!(store.upsert_chain(broken).is_err());
    assert_eq!(store.chain("route"), Some(&second));
    assert_eq!(store.path(), "/cfg/kaduox-ssh/hosts.toml");
    assert_eq!(store.clone(), store);
    assert!(HostStore::open_default(Platform::MacOs, &variables, None).is_none());
}

#[test]
fn aliases_that_cannot_be_stored_are_warned_of() {
    let mut store = HostStore::open("/tmp/hosts.toml", None).unwrap();
    let catalog = parse_host_catalog("Host we@b\n", None);
    let report = import_openssh(&mut store, &catalog, &OpenSshBook::unread("me")).unwrap();
    assert_eq!(report.skipped_unsupported_alias, 1);
    assert_eq!(
        report.warnings,
        vec!["skipped OpenSSH alias \"we@b\": not representable by the portable Kaduox alias grammar"]
    );
    assert!(store.host("we@b").is_none());
}

#[test]
fn written_out_jumps_have_portable_names() {
    let inline = |alias: &str| InlineJump {
        alias: alias.into(),
        host: "10.0.0.1".into(),
        port: 22,
        user: "me".into(),
        identity_file: None,
        host_key_policy: StoredHostKeyPolicy::Strict,
    };
    let chain = |hop: JumpHop| JumpChain { name: "route".into(), hops: vec![hop] };
    assert!(chain(JumpHop::Inline(inline("edge-1"))).validate().is_ok());
    assert_eq!(
        chain(JumpHop::Inline(inline("edge 1"))).validate().unwrap_err().problem,
        HostProblem::NameCharacters
    );
    assert!(chain(JumpHop::OpenSshAlias("edge-1".into())).validate().is_ok());
    assert_eq!(
        chain(JumpHop::OpenSshAlias("边".into())).validate().unwrap_err().problem,
        HostProblem::NameCharacters
    );
    assert!(chain(JumpHop::Host("边 (1)".into())).validate().is_ok());
}

#[test]
fn texts_that_are_read_are_written_the_same() {
    let mut database = HostDatabase::default();
    let mut host = HostRecord::new("web", "10.0.0.1", "me");
    host.note = Some("a\tb\r\nc \"d\" \\".into());
    database.hosts.insert(host.alias.clone(), host);
    let text = encode(&database).unwrap();
    assert_eq!(encode(&decode(&text).unwrap()).unwrap(), text);

    let mut odd = HostRecord::new("web", "10.0.0.1", "me");
    odd.note = Some("bell \u{7}".into());
    database.hosts.insert(odd.alias.clone(), odd);
    let text = encode(&database).unwrap();
    assert!(decode(&text).is_err());
}
