//! OpenSSH client configuration, host catalogs, inventories and targets.

use kaduox_ssh::command::RemoteCommandSpec;
use kaduox_ssh::config::has_small_patterns;
use kaduox_ssh::config::ConfigProblem;
use kaduox_ssh::config::MAX_PATTERN_BRACES;
use kaduox_ssh::config::MAX_PATTERN_CHARS;
use kaduox_ssh::inventory::InventoryMember;
use kaduox_ssh::openssh_include::host_directive_matches;
use kaduox_ssh::config::parse_openssh_contents;
use kaduox_ssh::config_trust::accept_config_file;
use kaduox_ssh::config_trust::inspect_ace;
use kaduox_ssh::config_trust::verify_open_file_acl;
use kaduox_ssh::config_trust::verify_unix_trust;
use kaduox_ssh::config_trust::AccessEntry;
use kaduox_ssh::config_trust::FileAccess;
use kaduox_ssh::config_trust::TrustProblem;
use kaduox_ssh::config_trust::ACCESS_ALLOWED_ACE_TYPE;
use kaduox_ssh::config_trust::MAX_CONFIG_FILE_BYTES;
use kaduox_ssh::host_catalog::concrete_alias;
use kaduox_ssh::host_catalog::parse_host_catalog;
use kaduox_ssh::directories::entry_of;
use kaduox_ssh::directories::openssh_config_path;
use kaduox_ssh::directories::user_home_dir;
use kaduox_ssh::directories::DirectoryVariables;
use kaduox_ssh::directories::Platform;
use kaduox_ssh::inventory::default_inventory_path;
use kaduox_ssh::inventory::discover_inventory;
use kaduox_ssh::inventory::load_inventory;
use kaduox_ssh::inventory::parse_inventory;
use kaduox_ssh::inventory::InventoryProblem;
use kaduox_ssh::openssh_env::expand_include_environment_with;
use kaduox_ssh::openssh_env::EnvProblem;
use kaduox_ssh::openssh_include::expand_user_config;
use kaduox_ssh::openssh_include::expand_user_config_for_catalog;
use kaduox_ssh::openssh_include::parse_arguments;
use kaduox_ssh::openssh_include::Disk;
use kaduox_ssh::openssh_include::EntryName;
use kaduox_ssh::openssh_include::IncludeError;
use kaduox_ssh::openssh_include::IncludeProblem;
use kaduox_ssh::openssh_include::Listing;
use kaduox_ssh::openssh_include::NodeKind;
use kaduox_ssh::openssh_match::match_hostname_pattern_list;
use kaduox_ssh::openssh_match::rewrite_supported_match_config;
use kaduox_ssh::pattern::glob_match;
use kaduox_ssh::pattern::retrying_match;
use kaduox_ssh::pattern::wildcard_match;
use kaduox_ssh::pattern::Verdict;
use kaduox_ssh::target::ConnectionTarget;
use kaduox_ssh::target::TargetProblem;
use kaduox_ssh::text_map::TextMap;

const HOME: &str = "/home/u";
const ROOT: &str = "/home/u/.ssh/config";

/// Looks up on a made-up disk what the expansion asks for, until it is done.
fn expand_on(files: &[(&str, &str)], host: Option<&str>) -> Result<String, IncludeError> {
    let mut disk = Disk::unknown();
    for _ in 0..1000 {
        let tried = match host {
            Some(host) => expand_user_config(&disk, ROOT, HOME, host),
            None => expand_user_config_for_catalog(&disk, ROOT, HOME),
        };
        let error = match tried {
            Ok(text) => return Ok(text),
            Err(error) => error,
        };
        let path = error.subject.clone();
        let found = files
            .iter()
            .find(|(name, _)| format!("{HOME}/.ssh/{name}") == path);
        match error.problem {
            IncludeProblem::NeedCanonical => {
                disk.canonical.insert(path.clone(), found.map(|_| path));
            }
            IncludeProblem::NeedContents => {
                disk.contents
                    .insert(path, found.map(|(_, text)| text.to_string()));
            }
            IncludeProblem::NeedKind => {
                let kind = if found.is_some() {
                    NodeKind::File
                } else {
                    NodeKind::Missing
                };
                disk.kinds.insert(path, kind);
            }
            IncludeProblem::NeedListing => {
                let prefix = format!("{path}/");
                let names: Vec<EntryName> = files
                    .iter()
                    .map(|(name, _)| format!("{HOME}/.ssh/{name}"))
                    .filter(|full| full.starts_with(&prefix))
                    .map(|full| EntryName {
                        name: full[prefix.len()..].to_string(),
                        is_text: true,
                    })
                    .collect();
                let listing = if names.is_empty() {
                    Listing::Missing
                } else {
                    Listing::Names(names)
                };
                disk.listings.insert(path, listing);
            }
            _ => return Err(error),
        }
    }
    panic!("the expansion never ends")
}

fn variables() -> TextMap<String> {
    let mut map = TextMap::new();
    for (name, value) in [
        ("CONF_ROOT", "conf.d"),
        ("FILE", "prod.conf"),
        ("SPACED", "dir with spaces"),
        ("PERCENT", "literal%h.conf"),
        ("NESTED", "${FILE}"),
        ("A%B", "percent-name.conf"),
    ] {
        map.insert(name.to_string(), value.to_string());
    }
    map
}

#[test]
fn parses_quoted_multiple_include_arguments() {
    assert_eq!(
        parse_arguments("\"conf.d/a file\" conf.d/b\\ file # comment").unwrap(),
        vec!["conf.d/a file", "conf.d/b file"]
    );
}

#[test]
fn glob_match_supports_star_question_and_escapes() {
    assert_eq!(glob_match(b"*.conf", b"10-prod.conf"), Verdict::Yes);
    assert_eq!(glob_match(b"host?.conf", b"host1.conf"), Verdict::Yes);
    assert_eq!(glob_match(b"host?.conf", b"host10.conf"), Verdict::No);
    assert_eq!(
        glob_match(b"literal\\*.conf", b"literal*.conf"),
        Verdict::Yes
    );
}

#[test]
fn both_matchers_agree() {
    for (pattern, candidate, expected) in [
        (&b"*.example"[..], &b"a.b.example"[..], true),
        (&b"*a*b"[..], &b"xaxbxb"[..], true),
        (&b"*a*b"[..], &b"xbxa"[..], false),
        (&b"?"[..], &b""[..], false),
        (&b""[..], &b""[..], true),
        (&b"**"[..], &b"abc"[..], true),
    ] {
        assert_eq!(wildcard_match(pattern, candidate), expected);
        assert_eq!(retrying_match(pattern, candidate), expected);
    }
}

#[test]
fn unsupported_include_expansions_fail_closed() {
    for argument in [
        "%d/conf",
        "${SSH_CONF}/prod",
        "~other/.ssh/config",
        "conf.d/[0-9]*",
    ] {
        let config = format!("Include {argument}\n");
        assert!(
            expand_on(&[("config", &config)], Some("prod")).is_err(),
            "{argument}"
        );
    }
}

#[test]
fn wildcard_include_does_not_match_hidden_files() {
    let expanded = expand_on(
        &[
            ("conf.d/visible.conf", "  User visible\n"),
            ("conf.d/.hidden.conf", "  Port 2022\n"),
            (
                "config",
                "Host prod\n  Include conf.d/*.conf\n  HostName prod.example\n",
            ),
        ],
        Some("prod"),
    )
    .unwrap();
    assert!(expanded.contains("User visible"));
    assert!(!expanded.contains("Port 2022"));
}

#[test]
fn explicit_period_include_can_match_hidden_files() {
    let expanded = expand_on(
        &[
            ("conf.d/.hidden.conf", "  Port 2022\n"),
            (
                "config",
                "Host prod\n  Include conf.d/.hidden*.conf\n  HostName prod.example\n",
            ),
        ],
        Some("prod"),
    )
    .unwrap();
    assert!(expanded.contains("Port 2022"));
}

#[test]
fn include_expansion_is_in_place_and_lexically_sorted() {
    let expanded = expand_on(
        &[
            ("conf.d/20-b.conf", "  IdentityFile /tmp/second\n"),
            ("conf.d/10-a.conf", "  User first\n"),
            (
                "config",
                "Host prod\n  Include conf.d/*.conf\n  Port 2200\n",
            ),
        ],
        Some("prod"),
    )
    .unwrap();
    let first = expanded.find("User first").unwrap();
    let second = expanded.find("IdentityFile /tmp/second").unwrap();
    let port = expanded.rfind("Port 2200").unwrap();
    assert!(first < second && second < port);

    let parsed = russh_config::parse(&expanded, "prod").unwrap();
    assert_eq!(parsed.user(), "first");
    assert_eq!(parsed.port(), 2200);
}

#[test]
fn include_restores_parent_host_scope_after_nested_host_blocks() {
    let expanded = expand_on(
        &[
            ("nested.conf", "Host other\n  User wrong\n  Port 2022\n"),
            (
                "config",
                "Host prod\n  User deploy\n  Include nested.conf\n  Port 2200\n",
            ),
        ],
        Some("prod"),
    )
    .unwrap();
    let parsed = russh_config::parse(&expanded, "prod").unwrap();
    assert_eq!(parsed.user(), "deploy");
    assert_eq!(parsed.port(), 2200);
}

#[test]
fn inactive_host_include_cannot_reactivate_inside_child() {
    let expanded = expand_on(
        &[
            ("nested.conf", "Host target\n  Port 2999\n  User wrong\n"),
            (
                "config",
                "Host outer\n  Include nested.conf\nHost target\n  Port 2200\n  User correct\n",
            ),
        ],
        Some("target"),
    )
    .unwrap();
    let parsed = russh_config::parse(&expanded, "target").unwrap();
    assert_eq!(parsed.port(), 2200);
    assert_eq!(parsed.user(), "correct");
    assert!(!expanded.contains("2999"));
    assert!(!expanded.contains("User wrong"));
}

#[test]
fn global_scope_is_restored_after_include() {
    let expanded = expand_on(
        &[
            ("nested.conf", "Host other\n  Port 2022\n"),
            (
                "config",
                "User global-user\nInclude nested.conf\nPort 2200\nHost prod\n  HostName prod.example\n",
            ),
        ],
        Some("prod"),
    )
    .unwrap();
    let parsed = russh_config::parse(&expanded, "prod").unwrap();
    assert_eq!(parsed.user(), "global-user");
    assert_eq!(parsed.port(), 2200);
    assert_eq!(parsed.host(), "prod.example");
}

#[test]
fn supported_match_in_include_is_applied_and_parent_state_is_restored() {
    let expanded = expand_on(
        &[
            (
                "nested.conf",
                "Match originalhost prod\n  User included\nHost other\n  Port 2999\n",
            ),
            (
                "config",
                "Match originalhost prod\n  Include nested.conf\n  Port 2200\n",
            ),
        ],
        Some("prod"),
    )
    .unwrap();
    let parsed = russh_config::parse(&expanded, "prod").unwrap();
    assert_eq!(parsed.user(), "included");
    assert_eq!(parsed.port(), 2200);
    assert!(!expanded.contains("2999"));
}

#[test]
fn inactive_match_include_is_parse_only_and_cannot_reactivate() {
    let expanded = expand_on(
        &[
            (
                "nested.conf",
                "Host prod\n  User wrong\nMatch all\n  Port 2999\n",
            ),
            (
                "config",
                "Match originalhost other\n  Include nested.conf\nHost prod\n  User correct\n  Port 2200\n",
            ),
        ],
        Some("prod"),
    )
    .unwrap();
    let parsed = russh_config::parse(&expanded, "prod").unwrap();
    assert_eq!(parsed.user(), "correct");
    assert_eq!(parsed.port(), 2200);
    assert!(!expanded.contains("User wrong"));
    assert!(!expanded.contains("2999"));
}

#[test]
fn catalog_expansion_keeps_match_marker_but_expands_includes() {
    let expanded = expand_on(
        &[
            ("nested.conf", "Host included\n  User deploy\n"),
            (
                "config",
                "Include nested.conf\nMatch host *.internal\n  User internal\nHost direct\n",
            ),
        ],
        None,
    )
    .unwrap();
    assert!(expanded.contains("Host included"));
    assert!(expanded.contains("Match host *.internal"));
    assert!(expanded.contains("Host direct"));
}

#[test]
fn missing_glob_matches_are_ignored_like_openssh() {
    let expanded = expand_on(
        &[(
            "config",
            "Include conf.d/*.conf\nHost prod\n  User deploy\n",
        )],
        Some("prod"),
    )
    .unwrap();
    let parsed = russh_config::parse(&expanded, "prod").unwrap();
    assert_eq!(parsed.user(), "deploy");
}

#[test]
fn unsupported_match_in_included_file_fails_closed_for_connection_resolution() {
    assert!(expand_on(
        &[
            ("nested.conf", "Match host *.internal\n  User wrong\n"),
            ("config", "Host prod\n  Include nested.conf\n"),
        ],
        Some("prod"),
    )
    .is_err());
}

#[test]
fn inactive_include_still_validates_unsupported_match_syntax() {
    assert!(expand_on(
        &[
            ("nested.conf", "Match host *.internal\n  User wrong\n"),
            (
                "config",
                "Host other\n  Include nested.conf\nHost prod\n  User deploy\n",
            ),
        ],
        Some("prod"),
    )
    .is_err());
}

#[test]
fn insecure_included_file_permissions_fail_closed() {
    let mut disk = Disk::unknown();
    let nested = "/home/u/.ssh/nested.conf";
    for path in [ROOT, nested] {
        disk.canonical
            .insert(path.to_string(), Some(path.to_string()));
        disk.kinds.insert(path.to_string(), NodeKind::File);
    }
    disk.contents.insert(
        ROOT.to_string(),
        Some("Host prod\n  Include nested.conf\n".to_string()),
    );
    let trusted = accept_config_file(true, verify_unix_trust(1000, 1000, 0o666), 14);
    assert!(trusted.is_err());
    disk.contents.insert(
        nested.to_string(),
        trusted.ok().map(|_| "  User deploy\n".to_string()),
    );
    let refused = expand_user_config(&disk, ROOT, HOME, "prod");
    assert_eq!(refused.unwrap_err().problem, IncludeProblem::Unreadable);
}

#[test]
fn recursive_include_cycle_fails_closed() {
    let error = expand_on(
        &[
            ("config", "Include nested.conf\n"),
            ("nested.conf", "Include config\n"),
        ],
        Some("prod"),
    )
    .unwrap_err();
    assert_eq!(error.problem, IncludeProblem::Cycle);
}

#[test]
fn expands_multiple_environment_references_without_rescanning_values() {
    assert_eq!(
        expand_include_environment_with("${CONF_ROOT}/${FILE}", 1024, &variables()).unwrap(),
        "conf.d/prod.conf"
    );
    assert_eq!(
        expand_include_environment_with("${NESTED}", 1024, &variables()).unwrap(),
        "${FILE}"
    );
}

#[test]
fn preserves_plain_dollar_and_environment_value_characters() {
    assert_eq!(
        expand_include_environment_with("price$5/${SPACED}/${PERCENT}", 1024, &variables())
            .unwrap(),
        "price$5/dir with spaces/literal%h.conf"
    );
    assert_eq!(
        expand_include_environment_with("${A%B}", 1024, &variables()).unwrap(),
        "percent-name.conf"
    );
}

#[test]
fn literal_percent_escape_matches_openssh() {
    assert_eq!(
        expand_include_environment_with("conf.d/100%%.conf", 1024, &variables()).unwrap(),
        "conf.d/100%.conf"
    );
    assert_eq!(
        expand_include_environment_with("%%%%", 1024, &variables()).unwrap(),
        "%%"
    );
    assert_eq!(
        expand_include_environment_with("${CONF_ROOT}/%%done", 1024, &variables()).unwrap(),
        "conf.d/%done"
    );
}

#[test]
fn named_or_incomplete_percent_tokens_remain_fail_closed() {
    for input in ["%h.conf", "${CONF_ROOT}/%n.conf", "%", "ok%%/%d"] {
        assert!(
            expand_include_environment_with(input, 1024, &variables()).is_err(),
            "{input:?}"
        );
    }
}

#[test]
fn malformed_or_missing_variables_fail_closed() {
    for input in ["${", "${}", "before-${MISSING}-after"] {
        assert!(
            expand_include_environment_with(input, 1024, &variables()).is_err(),
            "{input:?}"
        );
    }
}

#[test]
fn expanded_size_is_bounded_after_percent_collapse() {
    assert_eq!(
        expand_include_environment_with("${SPACED}", 3, &variables()),
        Err(EnvProblem::TooLong)
    );
    assert_eq!(
        expand_include_environment_with("%%a", 2, &variables()).unwrap(),
        "%a"
    );
    assert!(expand_include_environment_with("%%ab", 2, &variables()).is_err());
}

#[test]
fn hostname_pattern_list_matches_case_insensitively_with_negation() {
    assert!(match_hostname_pattern_list("Prod.Example", "*.example").unwrap());
    assert!(match_hostname_pattern_list("prod.example", "other,prod.*").unwrap());
    assert!(!match_hostname_pattern_list("prod.example", "*,!prod.example").unwrap());
    assert!(!match_hostname_pattern_list("prod.example", "!other.example").unwrap());
    assert!(match_hostname_pattern_list("node1.example", "node?.example").unwrap());
    assert!(!match_hostname_pattern_list("node10.example", "node?.example").unwrap());
}

#[test]
fn match_originalhost_true_becomes_ordered_host_block() {
    let rewritten = rewrite_supported_match_config(
        "Host prod.example\n  HostName 10.0.0.10\nMatch originalhost PROD.EXAMPLE\n  Port 2200\n",
        "prod.example",
    )
    .unwrap();
    assert!(!rewritten.to_ascii_lowercase().contains("match "));
    let parsed = russh_config::parse(&rewritten, "prod.example").unwrap();
    assert_eq!(parsed.host(), "10.0.0.10");
    assert_eq!(parsed.port(), 2200);
}

#[test]
fn nonmatching_block_is_removed_without_bleeding_into_previous_host() {
    let rewritten = rewrite_supported_match_config(
        "Host prod\n  User alice\nMatch originalhost other\n  User bob\nHost other\n  User carol\n",
        "prod",
    )
    .unwrap();
    let parsed = russh_config::parse(&rewritten, "prod").unwrap();
    assert_eq!(parsed.user(), "alice");
    assert!(!rewritten.contains("User bob"));
}

#[test]
fn standalone_match_all_is_supported() {
    let rewritten = rewrite_supported_match_config(
        "Host prod\n  User deploy\nMatch all\n  Port 2222\n",
        "prod",
    )
    .unwrap();
    let parsed = russh_config::parse(&rewritten, "prod").unwrap();
    assert_eq!(parsed.port(), 2222);
}

#[test]
fn unsupported_match_forms_fail_closed() {
    for line in [
        "Match host *.internal",
        "Match user deploy",
        "Match originalhost prod user deploy",
        "Match !originalhost prod",
        "Match originalhost=prod",
        "Match final",
        "Match exec true",
        r#"Match originalhost "prod""#,
        r"Match originalhost prod\*",
    ] {
        let config = format!("Host prod\n  User deploy\n{line}\n  Port 2222\n");
        assert!(
            rewrite_supported_match_config(&config, "prod").is_err(),
            "{line}"
        );
    }
}

#[test]
fn standalone_rewriter_rejects_include_structural_lines() {
    let config = "Host prod\n  User deploy\nMatch originalhost prod\n  Include conf.d/*.conf\n";
    assert!(rewrite_supported_match_config(config, "prod").is_err());
}

#[test]
fn catalog_extracts_sorted_concrete_aliases() {
    let catalog = parse_host_catalog(
        "\
Host prod staging *.internal !blocked\n\
  User deploy\n\
Host=database\n\
Host prod\n",
        None,
    );
    assert_eq!(catalog.aliases, vec!["database", "prod", "staging"]);
    assert!(!catalog.has_unsupported_structural_directives);
}

#[test]
fn catalog_flags_match_or_unexpanded_include_directives() {
    let catalog = parse_host_catalog(
        "Include ~/.ssh/conf.d/*\nHost prod\nMatch host *.internal\n  User deploy\n",
        None,
    );
    assert_eq!(catalog.aliases, vec!["prod"]);
    assert!(catalog.has_unsupported_structural_directives);
}

#[test]
fn catalog_expansion_discovers_included_aliases_and_preserves_match_flag() {
    let expanded = expand_on(
        &[
            (
                "conf.d/10-prod.conf",
                "Host included-prod\n  HostName prod.example\n",
            ),
            (
                "config",
                "Include conf.d/*.conf\nHost direct\nMatch host *.internal\n  User deploy\n",
            ),
        ],
        None,
    )
    .unwrap();
    let catalog = parse_host_catalog(&expanded, Some(ROOT.to_string()));
    assert_eq!(catalog.aliases, vec!["direct", "included-prod"]);
    assert!(catalog.has_unsupported_structural_directives);
}

#[test]
fn comments_and_quotes_do_not_create_fake_aliases() {
    let catalog = parse_host_catalog(
        "Host \"prod\" 'staging' # comment fake\nHost api#comment\n",
        None,
    );
    assert_eq!(catalog.aliases, vec!["api", "prod", "staging"]);
}

#[test]
fn wildcard_and_negated_patterns_are_not_selectable() {
    for value in ["*", "*.example", "db?", "[ab]host", "!blocked"] {
        assert!(!concrete_alias(value), "{value}");
    }
    assert!(concrete_alias("prod-blue"));
    assert!(concrete_alias("2001:db8::1"));
}

#[test]
fn regular_user_config_is_accepted() {
    let trust = verify_unix_trust(1000, 1000, 0o600);
    assert_eq!(accept_config_file(true, trust, 10), Ok(()));
    assert_eq!(
        verify_unix_trust(1001, 1000, 0o600),
        Err(TrustProblem::ForeignOwner)
    );
    assert_eq!(verify_unix_trust(0, 1000, 0o600), Ok(()));
}

#[test]
fn directory_is_rejected_as_config_file() {
    let trust = verify_unix_trust(1000, 1000, 0o700);
    assert_eq!(
        accept_config_file(false, trust, 0),
        Err(TrustProblem::NotAFile)
    );
}

#[test]
fn oversized_config_file_is_rejected_before_unbounded_read() {
    let trust = verify_unix_trust(1000, 1000, 0o600);
    assert!(accept_config_file(true, trust, MAX_CONFIG_FILE_BYTES + 1).is_err());
    assert!(accept_config_file(true, trust, MAX_CONFIG_FILE_BYTES).is_ok());
}

#[test]
fn group_or_other_writable_config_is_rejected() {
    for mode in [0o620, 0o602, 0o666] {
        assert!(
            verify_unix_trust(1000, 1000, mode).is_err(),
            "mode {mode:#o}"
        );
    }
    for mode in [0o600, 0o640, 0o644] {
        assert!(verify_unix_trust(1000, 1000, mode).is_ok());
    }
}

fn builtin_users(mask: u32) -> AccessEntry {
    AccessEntry {
        ace_type: ACCESS_ALLOWED_ACE_TYPE,
        ace_size: 24,
        mask,
        sub_authority_count: 2,
        sid_valid: true,
        sid_trusted: false,
    }
}

fn access(entry: AccessEntry) -> FileAccess {
    FileAccess {
        owner_valid: true,
        owner_trusted: true,
        list_valid: true,
        entries: vec![entry],
    }
}

#[test]
fn windows_read_only_untrusted_ace_is_accepted() {
    let read: u32 = 0x0012_0089;
    assert_eq!(inspect_ace(&builtin_users(read)), Ok(()));
    assert_eq!(verify_open_file_acl(&access(builtin_users(read))), Ok(()));
}

#[test]
fn windows_untrusted_write_ace_is_rejected() {
    let write: u32 = 0x0010_0116;
    assert_eq!(
        verify_open_file_acl(&access(builtin_users(write))),
        Err(TrustProblem::UntrustedWriter)
    );
}

#[test]
fn parses_and_expands_nested_groups_deterministically() {
    let inventory = parse_inventory(
        "\
             host web-01\n\
             host web-02\n\
             host db-01\n\
             group web web-01 web-02\n\
             group production @web db-01 web-01\n",
        None,
    )
    .unwrap();

    assert_eq!(inventory.hosts(), &["db-01", "web-01", "web-02"]);
    assert_eq!(
        inventory.expand_group("production").unwrap(),
        vec!["web-01", "web-02", "db-01"]
    );
}

#[test]
fn rejects_undeclared_hosts_and_unknown_groups() {
    assert!(parse_inventory("group prod missing\n", None).is_err());
    assert!(parse_inventory("host web\ngroup prod @missing\n", None).is_err());
}

#[test]
fn rejects_group_cycles_eagerly() {
    let error = parse_inventory("host web\ngroup a @b\ngroup b @c\ngroup c @a web\n", None)
        .unwrap_err();
    assert!(error.message().contains("group cycle"));
}

#[test]
fn rejects_duplicate_declarations_and_members() {
    assert!(parse_inventory("host web\nhost web\n", None).is_err());
    assert!(parse_inventory("host web\ngroup prod web web\n", None).is_err());
    assert!(parse_inventory("host web\ngroup prod web\ngroup prod web\n", None).is_err());
}

#[test]
fn rejects_invalid_group_names_and_directives() {
    assert!(parse_inventory("host web\ngroup bad/name web\n", None).is_err());
    assert!(parse_inventory("include hosts.txt\n", None).is_err());
}

#[test]
fn inventories_are_read_from_bytes() {
    let inventory = load_inventory("/etc/hosts.inv", b"host web\n").unwrap();
    assert_eq!(inventory.source(), Some("/etc/hosts.inv"));
    let broken = load_inventory("/etc/hosts.inv", &[0xff, 0xfe]).unwrap_err();
    assert_eq!(broken.problem, InventoryProblem::NotText);
    let absent = discover_inventory("/etc/hosts.inv", None).unwrap();
    assert!(absent.hosts().is_empty());
    assert_eq!(
        inventory.expand_group("none").unwrap_err().problem,
        InventoryProblem::GroupNotFound
    );
    assert_eq!(
        default_inventory_path(Some("/x/y"), Platform::Unix, &DirectoryVariables::default())
            .unwrap(),
        "/x/y"
    );
    assert_eq!(
        default_inventory_path(None, Platform::Unix, &DirectoryVariables::default())
            .unwrap_err()
            .problem,
        InventoryProblem::NoPath
    );
}

fn some(text: &str) -> Option<String> {
    Some(text.to_owned())
}

#[test]
fn inventories_stand_where_the_platform_has_them() {
    let mut variables = DirectoryVariables {
        home: some("/home/u"),
        xdg_config_home: some(" "),
        app_data: some("C:\\Users\\u\\AppData"),
        ..DirectoryVariables::default()
    };
    let found = |platform, variables: &DirectoryVariables| {
        default_inventory_path(Some("\t"), platform, variables).unwrap()
    };
    for platform in [Platform::Unix, Platform::MacOs] {
        assert_eq!(
            found(platform, &variables),
            "/home/u/.config/kaduox-ssh/inventory"
        );
    }
    assert_eq!(
        found(Platform::Windows, &variables),
        "C:\\Users\\u\\AppData\\Kaduox-SSH\\inventory"
    );
    variables.xdg_config_home = some("/cfg/");
    variables.app_data = None;
    assert_eq!(found(Platform::MacOs, &variables), "/cfg/kaduox-ssh/inventory");
    assert_eq!(
        found(Platform::Windows, &variables),
        "/home/u\\.config\\kaduox-ssh\\inventory"
    );
}

#[test]
fn home_directories_depend_on_the_platform() {
    let mut variables = DirectoryVariables {
        home: some("/home/u"),
        home_drive: some("C:"),
        home_path: some("\\Users\\drive"),
        user_profile: some("C:\\Users\\profile"),
        ..DirectoryVariables::default()
    };
    assert_eq!(user_home_dir(Platform::Unix, &variables), some("/home/u"));
    assert_eq!(
        openssh_config_path(Platform::MacOs, &variables),
        some("/home/u/.ssh/config")
    );
    assert_eq!(
        openssh_config_path(Platform::Windows, &variables),
        some("C:\\Users\\profile\\.ssh\\config")
    );
    variables.user_profile = None;
    assert_eq!(
        user_home_dir(Platform::Windows, &variables),
        some("C:\\Users\\drive")
    );
    variables.home_drive = None;
    assert_eq!(user_home_dir(Platform::Windows, &variables), some("/home/u"));
    variables.home = None;
    assert_eq!(openssh_config_path(Platform::Windows, &variables), None);
    assert_eq!(openssh_config_path(Platform::Unix, &variables), None);
}

#[test]
fn entries_of_windows_directories_follow_a_backslash() {
    for (directory, path) in [
        ("C:\\a", "C:\\a\\b"),
        ("C:\\a\\", "C:\\a\\b"),
        ("C:/a/", "C:/a/b"),
        ("C:", "C:b"),
        ("1:", "1:\\b"),
        ("", "b"),
    ] {
        assert_eq!(entry_of(directory, "b", Platform::Windows), path);
    }
    assert_eq!(entry_of("C:", "b", Platform::Unix), "C:/b");
}

#[test]
fn parses_plain_host() {
    assert_eq!(
        ConnectionTarget::parse("server.example").unwrap(),
        ConnectionTarget {
            host: "server.example".to_owned(),
            username: None,
        }
    );
}

#[test]
fn parses_user_at_host() {
    assert_eq!(
        ConnectionTarget::parse("deploy@server.example").unwrap(),
        ConnectionTarget {
            host: "server.example".to_owned(),
            username: Some("deploy".to_owned()),
        }
    );
}

#[test]
fn normalizes_bracketed_ipv6() {
    assert_eq!(
        ConnectionTarget::parse("deploy@[2001:db8::1]").unwrap(),
        ConnectionTarget {
            host: "2001:db8::1".to_owned(),
            username: Some("deploy".to_owned()),
        }
    );
    assert_eq!(
        ConnectionTarget::parse("[2001:db8::2]").unwrap(),
        ConnectionTarget {
            host: "2001:db8::2".to_owned(),
            username: None,
        }
    );
}

#[test]
fn rejects_ambiguous_or_malformed_targets() {
    for target in [
        "",
        "@server.example",
        "deploy@",
        "deploy@ops@server.example",
        "[2001:db8::1",
        "2001:db8::1]",
        "[]",
        "server example",
        "server\nexample",
        "server.example:2222",
    ] {
        assert!(ConnectionTarget::parse(target).is_err(), "{target}");
    }
    assert_eq!(
        ConnectionTarget::parse("server.example:2222"),
        Err(TargetProblem::PortSyntax)
    );
}

#[test]
fn leaves_bare_ipv6_unambiguous() {
    assert_eq!(
        ConnectionTarget::parse("2001:db8::1").unwrap().host,
        "2001:db8::1"
    );
}

#[test]
fn settings_of_an_alias_are_looked_up() {
    let contents = "Host prod\n  HostName 10.0.0.10\n  IdentityFile /keys/a\n  StrictHostKeyChecking yes\n  ProxyJump edge\nHost other\n  Port 99\n";
    let record = parse_openssh_contents(contents, "prod").unwrap();
    assert_eq!(record.identity_files, vec!["/keys/a".to_string()]);
    assert_eq!(record.strict_host_key_checking, Some(true));
    assert_eq!(record.proxy_jump.as_deref(), Some("edge"));
    assert_eq!(record.effective_port(), 22);
    assert_eq!(record.effective_user("local"), "local");
}

#[test]
fn renders_arguments_environment_and_working_directory() {
    let spec = RemoteCommandSpec {
        program: "printf".to_owned(),
        arguments: vec![
            "%s %s\\n".to_owned(),
            "hello world".to_owned(),
            "it's-safe".to_owned(),
        ],
        environment: vec![("APP_ENV".to_owned(), "prod west".to_owned())],
        working_directory: Some("/srv/app release".to_owned()),
    };

    assert_eq!(
        spec.render_posix().unwrap(),
        "cd '/srv/app release' && APP_ENV='prod west' printf '%s %s\\n' 'hello world' 'it'\"'\"'s-safe'"
    );
}

#[test]
fn preserves_existing_simple_exec_rendering() {
    let spec = RemoteCommandSpec {
        program: "uname".to_owned(),
        arguments: vec!["-a".to_owned()],
        environment: Vec::new(),
        working_directory: None,
    };
    assert_eq!(spec.render_posix().unwrap(), "uname -a");
}

#[test]
fn rejects_invalid_or_duplicate_environment_names() {
    for name in ["", "9PORT", "BAD-NAME", "A=B", "你好"] {
        let spec = RemoteCommandSpec {
            program: "true".to_owned(),
            arguments: Vec::new(),
            environment: vec![(name.to_owned(), "value".to_owned())],
            working_directory: None,
        };
        assert!(spec.validated().is_err(), "{name}");
    }

    let duplicate = RemoteCommandSpec {
        program: "true".to_owned(),
        arguments: Vec::new(),
        environment: vec![
            ("MODE".to_owned(), "one".to_owned()),
            ("MODE".to_owned(), "two".to_owned()),
        ],
        working_directory: None,
    };
    assert!(duplicate.validated().is_err());
}

#[test]
fn protects_leading_dash_working_directory() {
    let spec = RemoteCommandSpec {
        program: "pwd".to_owned(),
        arguments: Vec::new(),
        environment: Vec::new(),
        working_directory: Some("-release".to_owned()),
    };
    assert_eq!(spec.render_posix().unwrap(), "cd ./-release && pwd");
}

#[test]
fn rejects_nul_in_shell_inputs() {
    let mut spec = RemoteCommandSpec::new("printf");
    spec.arguments.push("bad\0arg".to_owned());
    assert!(spec.validated().is_err());
}

#[test]
fn render_cmd_avoids_posix_quotes_and_normalizes_cmd() {
    let spec = RemoteCommandSpec {
        program: "cmd".to_owned(),
        arguments: vec!["/c".to_owned(), "ver".to_owned()],
        environment: Vec::new(),
        working_directory: None,
    };
    assert_eq!(spec.render_cmd().unwrap(), "cmd.exe /c ver");

    let spec = RemoteCommandSpec {
        program: "echo".to_owned(),
        arguments: vec!["hello world".to_owned()],
        environment: Vec::new(),
        working_directory: None,
    };
    assert_eq!(spec.render_cmd().unwrap(), "echo \"hello world\"");

    let spec = RemoteCommandSpec {
        program: "echo".to_owned(),
        arguments: vec!["say \"hi\"".to_owned()],
        environment: Vec::new(),
        working_directory: None,
    };
    assert_eq!(spec.render_cmd().unwrap(), "echo \"say \"\"hi\"\"\"");
}

#[test]
fn patterns_that_no_matcher_is_made_of_are_refused() {
    let deep = format!("{}web{}", "{".repeat(251), "}".repeat(251));
    let nested = format!("Host {deep}\n  Port 2200\n");
    assert!(!has_small_patterns(&nested));
    assert_eq!(
        parse_openssh_contents(&nested, "web").unwrap_err().problem,
        ConfigProblem::Malformed
    );
    let long = format!("Host ok {}\n", "a".repeat(MAX_PATTERN_CHARS + 1));
    assert!(parse_openssh_contents(&long, "ok").is_err());
    assert_eq!(
        host_directive_matches(&format!("Host {deep}"), "web")
            .unwrap_err()
            .problem,
        IncludeProblem::HostLine
    );

    let edge = format!(
        "Host {}web{}\n  Port 2200\n",
        "{".repeat(MAX_PATTERN_BRACES),
        "}".repeat(MAX_PATTERN_BRACES)
    );
    assert_eq!(parse_openssh_contents(&edge, "web").unwrap().port, Some(2200));
    let widest = "?".repeat(MAX_PATTERN_CHARS);
    let text = format!("Host {widest} {{web,db}}\n  Port 2201\n");
    assert_eq!(parse_openssh_contents(&text, "db").unwrap().port, Some(2201));
    assert_eq!(parse_openssh_contents(&text, "app").unwrap().port, None);
    let row = format!("Host {}\n  Port 2202\n", "{a,b}".repeat(2 * MAX_PATTERN_BRACES));
    let name = "ab".repeat(MAX_PATTERN_BRACES);
    assert_eq!(parse_openssh_contents(&row, &name).unwrap().port, Some(2202));
    let unclear = format!("Host {}\n", "[{]{a\\}}".repeat(MAX_PATTERN_BRACES));
    assert!(!has_small_patterns(&unclear));
    let elsewhere = format!("Host web\n  ProxyCommand {deep}\n");
    assert!(parse_openssh_contents(&elsewhere, "web").is_ok());
}

#[test]
fn the_hardest_patterns_that_fit_are_read() {
    // The deepest nesting: groups of alternatives of several parts, and around
    // the innermost ones a class, a star and directories.
    let deep = format!(
        "{}[a-c]**/**/x*{}",
        "{b?c,a".repeat(MAX_PATTERN_BRACES),
        "}".repeat(MAX_PATTERN_BRACES)
    );
    // The largest automata for their length.
    let stars = "*?".repeat(MAX_PATTERN_CHARS / 2);
    let wide = "\u{10ffff}".repeat(MAX_PATTERN_CHARS);
    let directories = "/**/a".repeat(MAX_PATTERN_CHARS / 5);
    let classes = "[!b]".repeat(MAX_PATTERN_CHARS / 4);
    let choices = format!("{{{}}}", "*,".repeat(MAX_PATTERN_CHARS / 2 - 1));
    let spelled = format!("{{{},x}}", "\u{10ffff}".repeat(MAX_PATTERN_CHARS - 4));
    for pattern in [deep, stars, wide, directories, classes, choices, spelled] {
        let text = format!("Host {pattern} web\n  Port 2200\n");
        assert!(has_small_patterns(&text));
        assert_eq!(parse_openssh_contents(&text, "web").unwrap().port, Some(2200));
    }
}

#[test]
fn paths_below_the_home_directory_are_kept() {
    let text = "Host web\n  IdentityFile ~/.ssh/one\n  IdentityFile /keys/two\n  UserKnownHostsFile ~/known\n";
    if let Ok(record) = parse_openssh_contents(text, "web") {
        assert_eq!(record.identity_files.len(), 2);
        assert!(record.identity_files[0].ends_with(".ssh/one"));
        assert!(!record.identity_files[0].starts_with('~'));
        assert_eq!(record.identity_files[1], "/keys/two");
        assert!(record.known_hosts_file.unwrap().ends_with("known"));
    }
}

#[test]
fn groups_are_sorted_and_their_members_are_in_order() {
    let text = "host b\nhost a\ngroup z b @y a\ngroup y a\n";
    let inventory = parse_inventory(text, None).unwrap();
    let names: Vec<&str> = inventory.groups().iter().map(|g| g.name.as_str()).collect();
    assert_eq!(names, vec!["y", "z"]);
    let members = &inventory.group("z").unwrap().members;
    assert_eq!(
        members,
        &vec![
            InventoryMember::Host("b".to_owned()),
            InventoryMember::Group("y".to_owned()),
            InventoryMember::Host("a".to_owned()),
        ]
    );
}
