//! Remote files and directories, transfers and the tasks that track them.

use kaduox_ssh::remote_path::RemotePathProblem;
use kaduox_ssh::transfer::TransferStart;
use kaduox_ssh::transfer::OpenMode;
use kaduox_ssh::transfer::start_in_place;
use kaduox_ssh::client::CommandOutput;
use kaduox_ssh::file_transfer::FileAction;
use kaduox_ssh::file_transfer::FileEvent;
use kaduox_ssh::file_transfer::FileTransfer;
use kaduox_ssh::nodes::Node;
use kaduox_ssh::nodes::NodeBook;
use kaduox_ssh::privileged::ensure_privileged_install_success;
use kaduox_ssh::privileged::install_command;
use kaduox_ssh::privileged::validate_mode;
use kaduox_ssh::privileged::PrivilegedError;
use kaduox_ssh::remote_fs::file_type_of;
use kaduox_ssh::remote_fs::join_remote_child;
use kaduox_ssh::remote_fs::list_entries;
use kaduox_ssh::remote_fs::validate_remote_entry_name;
use kaduox_ssh::remote_fs::EntryNameProblem;
use kaduox_ssh::remote_fs::ListedEntry;
use kaduox_ssh::remote_fs::RemoteDirEntry;
use kaduox_ssh::remote_fs::RemoteFileMetadata;
use kaduox_ssh::remote_fs::RemoteFileType;
use kaduox_ssh::remote_mutation::ensure_same_parent;
use kaduox_ssh::remote_mutation::remote_parent;
use kaduox_ssh::remote_mutation::validate_mutation_path;
use kaduox_ssh::remote_mutation::DeletePlanner;
use kaduox_ssh::remote_mutation::MutationProblem;
use kaduox_ssh::remote_mutation::RemoteDeleteEntry;
use kaduox_ssh::remote_mutation::RemoteDeleteOptions;
use kaduox_ssh::remote_mutation::RemoteDeletePlan;
use kaduox_ssh::remote_mutation::MAX_REMOTE_DELETE_MAX_ENTRIES;
use kaduox_ssh::remote_path::join_remote_under_root;
use kaduox_ssh::remote_path::local_path_from_remote_relative;
use kaduox_ssh::remote_path::validate_remote_child_name;
use kaduox_ssh::remote_path::validate_remote_relative_path;
use kaduox_ssh::remote_path::LocalPaths;
use kaduox_ssh::symlink_policy::LinkProblem;
use kaduox_ssh::symlink_policy::LinkScan;
use kaduox_ssh::symlink_policy::SymlinkPolicy;
use kaduox_ssh::transfer::check_directory;
use kaduox_ssh::transfer::join_remote;
use kaduox_ssh::transfer::local_directory_steps;
use kaduox_ssh::transfer::transfer_remote_work_path;
use kaduox_ssh::transfer::TransferCancellation;
use kaduox_ssh::transfer::TransferDirection;
use kaduox_ssh::transfer::TransferEvent;
use kaduox_ssh::transfer::TransferOptions;
use kaduox_ssh::transfer::TransferProblem;
use kaduox_ssh::transfer::TransferSummary;
use kaduox_ssh::transfer::TreeWalk;
use kaduox_ssh::transfer::WalkAction;
use kaduox_ssh::transfer::MAX_FILE_CONCURRENCY;
use kaduox_ssh::transfer::MAX_SFTP_PACKET_SIZE;
use kaduox_ssh::transfer::MAX_SFTP_WRITE_CONCURRENCY;
use kaduox_ssh::transfer_download_policy::check_publish;
use kaduox_ssh::transfer_download_policy::publish_result;
use kaduox_ssh::transfer_download_policy::stable_local_staging_path;
use kaduox_ssh::transfer_download_policy::unique_local_staging_path;
use kaduox_ssh::transfer_download_policy::preflight_local_directory;
use kaduox_ssh::transfer_download_policy::DownloadPreflight;
use kaduox_ssh::transfer_download_policy::LinkOutcome;
use kaduox_ssh::transfer_download_policy::PreflightStop;
use kaduox_ssh::transfer_policy::atomic_open_flags;
use kaduox_ssh::transfer_policy::stable_remote_staging_path;
use kaduox_ssh::transfer_policy::unique_remote_staging_path;
use kaduox_ssh::transfer_policy::validate_resume_staging;
use kaduox_ssh::transfer_task::TaskProblem;
use kaduox_ssh::transfer_task::TransferTaskKind;
use kaduox_ssh::transfer_task::TransferTaskRegistry;
use kaduox_ssh::transfer_task::TransferTaskState;
use kaduox_ssh::transfer_task::MAX_TRANSFER_TASK_RETENTION;
use kaduox_ssh::transfer_task_manager::finish_task;
use kaduox_ssh::transfer_task_manager::local_task_path;
use kaduox_ssh::transfer_task_manager::start_retry;
use kaduox_ssh::transfer_task_manager::start_task;
use kaduox_ssh::transfer_task_manager::TransferOutcome;
use kaduox_ssh::transfer_task_manager::TRACKED_PROGRESS_QUEUE;
use russh_sftp::protocol::FileType as SftpFileType;

fn metadata(file_type: RemoteFileType, permissions: u32) -> RemoteFileMetadata {
    RemoteFileMetadata {
        file_type,
        size: Some(1),
        uid: None,
        user: None,
        gid: None,
        group: None,
        permissions: Some(permissions),
        accessed_at: None,
        modified_at: None,
    }
}

fn entry(path: &str, name: &str, file_type: RemoteFileType) -> RemoteDirEntry {
    RemoteDirEntry {
        name: name.to_owned(),
        path: path.to_owned(),
        metadata: metadata(file_type, 0),
    }
}

fn planned(path: &str, file_type: RemoteFileType) -> RemoteDeleteEntry {
    RemoteDeleteEntry {
        path: path.to_owned(),
        file_type,
    }
}

#[test]
fn mode_range_accepts_unix_special_bits() {
    assert!(validate_mode(0o7777).is_ok());
    assert!(validate_mode(0o10000).is_err());
}

#[test]
fn privileged_install_requires_explicit_success_status() {
    let missing = CommandOutput::default();
    assert!(ensure_privileged_install_success(&missing).is_err());

    let mut success = CommandOutput::default();
    success.exit_status = Some(0);
    assert!(ensure_privileged_install_success(&success).is_ok());

    let mut failure = CommandOutput::default();
    failure.stderr = b"permission denied".to_vec();
    failure.exit_status = Some(1);
    let error = ensure_privileged_install_success(&failure).unwrap_err();
    assert!(error.message().contains("permission denied"));
}

#[test]
fn broken_text_is_replaced() {
    let mut failure = CommandOutput::default();
    failure.stderr = vec![97, 0xff, 98];
    failure.exit_status = Some(4);
    let error = ensure_privileged_install_success(&failure).unwrap_err();
    assert!(error.message().contains("a\u{fffd}b"));
}

#[test]
fn files_are_installed_with_their_mode() {
    assert_eq!(install_command(0o10000, "/tmp/s", "/etc/f"), Err(PrivilegedError::Mode));
    assert_eq!(install_command(0o644, "/tmp/s", ""), Err(PrivilegedError::EmptyPath));
    let command = install_command(0o644, "/tmp/s", "/etc/my file").unwrap();
    assert!(command.contains("644"));
    assert!(command.contains("'/etc/my file'"));
}

#[test]
fn maps_sftp_file_types_without_loss() {
    let mapped = [
        (SftpFileType::Dir, 0o040000, RemoteFileType::Directory),
        (SftpFileType::File, 0o100000, RemoteFileType::File),
        (SftpFileType::Symlink, 0o120000, RemoteFileType::Symlink),
        (SftpFileType::Other, 0o060000, RemoteFileType::Other),
    ];
    for (sftp, mode, remote) in mapped {
        assert_eq!(SftpFileType::from(mode), sftp);
        assert_eq!(file_type_of(Some(mode)), remote);
    }
}

#[test]
fn file_types_follow_the_permission_bits() {
    assert_eq!(file_type_of(Some(0o040755)), RemoteFileType::Directory);
    assert_eq!(file_type_of(Some(0o100644)), RemoteFileType::File);
    assert_eq!(file_type_of(Some(0o120777)), RemoteFileType::Symlink);
    assert_eq!(file_type_of(Some(0o020666)), RemoteFileType::Other);
    assert_eq!(file_type_of(None), RemoteFileType::Other);
}

#[test]
fn rejects_path_bearing_directory_entry_names() {
    for name in ["", ".", "..", "../escape", "nested/file", "bad\0name"] {
        assert!(validate_remote_entry_name(name).is_err(), "{name:?}");
    }
    assert!(validate_remote_entry_name("normal file.txt").is_ok());
}

#[test]
fn reconstructs_remote_child_paths_from_parent_and_name() {
    assert_eq!(join_remote_child("/", "etc"), "/etc");
    assert_eq!(join_remote_child("/var/log", "syslog"), "/var/log/syslog");
    assert_eq!(join_remote_child("relative/", "file"), "relative/file");
}

#[test]
fn listings_are_checked_and_sorted() {
    let listed = vec![
        ListedEntry {
            name: "b".to_owned(),
            metadata: metadata(RemoteFileType::File, 0),
        },
        ListedEntry {
            name: "a".to_owned(),
            metadata: metadata(RemoteFileType::Directory, 0),
        },
    ];
    let entries = list_entries("/srv", &listed).unwrap();
    let paths: Vec<&str> = entries.iter().map(|e| e.path.as_str()).collect();
    assert_eq!(paths, vec!["/srv/a", "/srv/b"]);
    let bad = vec![ListedEntry {
        name: "x/y".to_owned(),
        metadata: metadata(RemoteFileType::File, 0),
    }];
    assert_eq!(list_entries("/srv", &bad), Err(EntryNameProblem::HoldsPath));
}

#[test]
fn mutation_paths_are_unambiguous_and_non_root() {
    for valid in [
        "file.txt",
        "./file.txt",
        "dir/file.txt",
        "/var/log/file.txt",
        "dir/name with spaces",
    ] {
        assert!(validate_mutation_path(valid).is_ok(), "{valid:?}");
    }

    for invalid in [
        "",
        ".",
        "/",
        "../escape",
        "./../escape",
        "dir/../escape",
        "dir/./file",
        "dir//file",
        "dir/",
        "bad\0name",
        "line\nname",
    ] {
        assert!(validate_mutation_path(invalid).is_err(), "{invalid:?}");
    }
}

#[test]
fn rename_is_same_directory_only() {
    assert!(ensure_same_parent("/srv/a", "/srv/b").is_ok());
    assert!(ensure_same_parent("./a", "./b").is_ok());
    assert!(ensure_same_parent("a", "b").is_ok());
    assert!(ensure_same_parent("/srv/a", "/tmp/a").is_err());
    assert!(ensure_same_parent("dir/a", "dir2/a").is_err());
}

#[test]
fn parent_resolution_handles_root_relative_and_dot_prefix() {
    assert_eq!(remote_parent("/file"), "/");
    assert_eq!(remote_parent("/var/file"), "/var");
    assert_eq!(remote_parent("file"), ".");
    assert_eq!(remote_parent("./file"), ".");
}

#[test]
fn recursive_delete_options_are_bounded() {
    assert!(RemoteDeleteOptions::default().validated().is_ok());
    assert!(RemoteDeleteOptions { max_entries: 0 }.validated().is_err());
    assert!(RemoteDeleteOptions {
        max_entries: MAX_REMOTE_DELETE_MAX_ENTRIES + 1,
    }
    .validated()
    .is_err());
}

#[test]
fn delete_plan_counts_root_and_retains_postorder_capability() {
    let plan = RemoteDeletePlan {
        root: "/srv/tree".to_owned(),
        files: 1,
        directories: 2,
        symlinks: 0,
        entries: vec![
            planned("/srv/tree", RemoteFileType::Directory),
            planned("/srv/tree/sub", RemoteFileType::Directory),
            planned("/srv/tree/sub/file", RemoteFileType::File),
        ],
    };
    assert_eq!(plan.total_entries(), 3);
    let removal_order = plan
        .entries
        .iter()
        .rev()
        .map(|entry| entry.path.as_str())
        .collect::<Vec<_>>();
    assert_eq!(
        removal_order,
        vec!["/srv/tree/sub/file", "/srv/tree/sub", "/srv/tree"]
    );
    assert_eq!(plan.removal(0).unwrap().path, "/srv/tree/sub/file");
    assert_eq!(plan.removal(2).unwrap().path, "/srv/tree");
    assert!(plan.removal(3).is_none());
}

#[test]
fn delete_plans_are_made_directory_by_directory() {
    let options = RemoteDeleteOptions { max_entries: 3 };
    let mut planner = DeletePlanner::start("/srv/t", RemoteFileType::Directory, options).unwrap();
    assert_eq!(planner.next_directory().as_deref(), Some("/srv/t"));
    planner
        .take_entries(&vec![
            entry("/srv/t/d", "d", RemoteFileType::Directory),
            entry("/srv/t/f", "f", RemoteFileType::File),
        ])
        .unwrap();
    assert_eq!(planner.next_directory().as_deref(), Some("/srv/t/d"));
    assert_eq!(
        planner.take_entries(&vec![entry("/srv/t/d/l", "l", RemoteFileType::Symlink)]),
        Err(MutationProblem::BudgetExceeded)
    );
    assert_eq!(planner.plan.entries.len(), 3);
    assert_eq!(planner.plan.symlinks, 0);
    assert_eq!(planner.next_directory(), None);
    assert_eq!(
        DeletePlanner::start("/srv/t", RemoteFileType::File, options).unwrap_err(),
        MutationProblem::RootNotDirectory
    );
}

#[test]
fn accepts_normal_nested_relative_paths() {
    validate_remote_relative_path("releases/2026/app.bin").unwrap();
    assert_eq!(
        join_remote_under_root("/srv/app", "releases/2026/app.bin").unwrap(),
        "/srv/app/releases/2026/app.bin"
    );
    assert_eq!(
        local_path_from_remote_relative("releases/2026/app.bin", LocalPaths::Posix).unwrap(),
        "releases/2026/app.bin"
    );
}

#[test]
fn rejects_parent_current_absolute_and_empty_components() {
    for path in [
        "",
        ".",
        "..",
        "../etc/passwd",
        "a/../b",
        "a/./b",
        "/etc/passwd",
        "a//b",
        "a/",
        "\\server\\share",
        "a\\..\\b",
    ] {
        assert!(
            validate_remote_relative_path(path).is_err(),
            "path should be rejected: {path:?}"
        );
    }
}

#[test]
fn rejects_server_supplied_multi_component_names() {
    for name in ["", ".", "..", "a/b", "a\\b", "bad\0name"] {
        assert!(validate_remote_child_name(name).is_err(), "{name:?}");
    }
}

#[test]
fn rejects_windows_drive_relative_local_components() {
    assert!(local_path_from_remote_relative("C:escape", LocalPaths::Windows).is_err());
    assert!(local_path_from_remote_relative("a/C:escape", LocalPaths::Windows).is_err());
    assert!(local_path_from_remote_relative("a/1:b", LocalPaths::Windows).is_ok());
}

#[test]
fn default_policy_preserves_skip_compatibility() {
    assert_eq!(SymlinkPolicy::default(), SymlinkPolicy::Skip);
    assert!(!SymlinkPolicy::Skip.needs_preflight());
    assert!(SymlinkPolicy::Reject.needs_preflight());
}

#[test]
fn reject_policy_accepts_regular_local_tree() {
    let mut scan = LinkScan::start_local("/root", Node::Directory, false, false).unwrap();
    assert_eq!(scan.next_directory().as_deref(), Some("/root"));
    scan.visit_local("/root/nested", Node::Directory, false)
        .unwrap();
    assert_eq!(scan.next_directory().as_deref(), Some("/root/nested"));
    scan.visit_local("/root/nested/app.bin", Node::File { len: 4 }, false)
        .unwrap();
    assert!(scan.next_directory().is_none());
}

#[test]
fn reject_policy_fails_on_nested_symlink() {
    let mut scan = LinkScan::start_local("/root", Node::Directory, false, false).unwrap();
    scan.next_directory();
    let error = scan
        .visit_local("/root/link", Node::Link, false)
        .unwrap_err();
    assert_eq!(error, LinkProblem::EntryIsLink);
    assert!(error.message().contains("symlink policy rejects"));
}

#[test]
fn reject_preflight_honors_transfer_cancellation() {
    let options = TransferOptions::default();
    options.cancellation.cancel();
    let cancelled = options.cancellation.is_cancelled();
    assert_eq!(
        LinkScan::start_local("/root", Node::Directory, false, cancelled),
        Err(LinkProblem::Cancelled)
    );
}

#[test]
fn joins_remote_paths_without_double_slashes() {
    assert_eq!(join_remote("/", "etc"), "/etc");
    assert_eq!(join_remote("/etc", "ssh"), "/etc/ssh");
    assert_eq!(join_remote("relative", "file"), "relative/file");
}

#[test]
fn stable_partial_names_support_resume() {
    assert_eq!(
        transfer_remote_work_path("/tmp/archive", true),
        "/tmp/archive.kaduox.part"
    );
    assert_eq!(transfer_remote_work_path("/tmp/archive", false), "/tmp/archive");
}

#[test]
fn validates_concurrency_and_resource_budget() {
    let mut options = TransferOptions::default();
    assert!(options.validated().is_ok());

    options.file_concurrency = 0;
    assert!(options.validated().is_err());
    options.file_concurrency = MAX_FILE_CONCURRENCY + 1;
    assert!(options.validated().is_err());

    options = TransferOptions::default();
    options.sftp_write_concurrency = MAX_SFTP_WRITE_CONCURRENCY + 1;
    assert!(options.validated().is_err());

    options = TransferOptions::default();
    options.sftp_packet_size = MAX_SFTP_PACKET_SIZE + 1;
    assert!(options.validated().is_err());

    options = TransferOptions::default();
    options.file_concurrency = MAX_FILE_CONCURRENCY;
    options.sftp_write_concurrency = MAX_SFTP_WRITE_CONCURRENCY;
    options.sftp_packet_size = MAX_SFTP_PACKET_SIZE;
    assert!(options.validated().is_err());
    assert_eq!(options.validated(), Err(TransferProblem::Budget));
}

#[test]
fn remote_entry_names_cannot_escape_local_tree() {
    for unsafe_name in ["", ".", "..", "../escape", "sub/file", r"..\escape", "bad\0name"] {
        assert!(validate_remote_child_name(unsafe_name).is_err());
    }
    assert!(validate_remote_child_name("normal-file.txt").is_ok());
}

#[test]
fn creates_missing_local_directory_chain_without_symlinks() {
    let steps = local_directory_steps("/tmp/root/one/two");
    assert_eq!(steps.last().map(String::as_str), Some("/tmp/root/one/two"));
    assert_eq!(check_directory(Node::Missing), Ok(true));
    assert_eq!(check_directory(Node::Directory), Ok(false));
}

#[test]
fn rejects_symlink_in_local_directory_chain() {
    assert_eq!(
        check_directory(Node::Link),
        Err(TransferProblem::DirectoryIsLink)
    );
    assert_eq!(
        check_directory(Node::File { len: 0 }),
        Err(TransferProblem::NotADirectory)
    );
}

#[test]
fn ways_are_looked_at_before_they_are_made() {
    let mut book = NodeBook::new();
    assert_eq!(
        preflight_local_directory("a/b", &book),
        Err(PreflightStop::Need("a".to_owned()))
    );
    book.insert("a".to_owned(), Node::Directory);
    assert_eq!(
        preflight_local_directory("a/b", &book),
        Err(PreflightStop::Need("a/b".to_owned()))
    );
    book.insert("a/b".to_owned(), Node::Directory);
    assert_eq!(preflight_local_directory("a/b", &book), Ok(true));
    book.insert("a/b".to_owned(), Node::Link);
    assert_eq!(
        preflight_local_directory("a/b", &book),
        Err(PreflightStop::Refused(TransferProblem::DirectoryIsLink, "a/b".to_owned()))
    );
    book.insert("a".to_owned(), Node::Missing);
    assert_eq!(preflight_local_directory("a/b", &book), Ok(false));
    book.insert("a".to_owned(), Node::File { len: 1 });
    assert_eq!(
        preflight_local_directory("a/b", &book),
        Err(PreflightStop::Refused(TransferProblem::NotADirectory, "a".to_owned()))
    );
}

#[test]
fn occupied_destinations_are_found_before_a_tree_is_downloaded() {
    let mut book = NodeBook::new();
    book.insert("out".to_owned(), Node::Directory);
    let mut ahead = DownloadPreflight::start("/srv", "out", LocalPaths::Posix, &book).unwrap();
    let (from, to) = ahead.next_directory().unwrap();
    assert_eq!((from.as_str(), to.as_str()), ("/srv", "out"));

    let file = Node::File { len: 3 };
    assert_eq!(
        ahead.visit(&from, &to, "f", file, false, &book),
        Err(PreflightStop::Need("out/f".to_owned()))
    );
    book.insert("out/f".to_owned(), Node::Missing);
    assert_eq!(ahead.visit(&from, &to, "f", file, false, &book), Ok(()));
    book.insert("out/f".to_owned(), Node::File { len: 9 });
    assert_eq!(
        ahead.visit(&from, &to, "f", file, false, &book),
        Err(PreflightStop::Refused(TransferProblem::DestinationExists, "out/f".to_owned()))
    );
    book.insert("out/f".to_owned(), Node::Link);
    assert_eq!(
        ahead.visit(&from, &to, "f", file, false, &book),
        Err(PreflightStop::Refused(TransferProblem::DestinationIsLink, "out/f".to_owned()))
    );

    assert_eq!(ahead.visit(&from, &to, "l", Node::Link, false, &book), Ok(()));
    assert_eq!(ahead.visit(&from, &to, "..", Node::Directory, false, &book), Ok(()));
    assert!(ahead.stack.is_empty());
    assert!(ahead.visit(&from, &to, "../up", file, false, &book).is_err());
    assert_eq!(
        ahead.visit(&from, &to, "f", file, true, &book),
        Err(PreflightStop::Refused(TransferProblem::Cancelled, "/srv".to_owned()))
    );

    book.insert("out/d".to_owned(), Node::Missing);
    assert_eq!(ahead.visit(&from, &to, "d", Node::Directory, false, &book), Ok(()));
    let mut walk = TreeWalk::new(TransferDirection::Download, "/srv", "out", LocalPaths::Posix);
    walk.next_directory();
    walk.visit(&from, &to, Some("d"), Node::Directory, false).unwrap();
    assert_eq!(ahead.stack, walk.stack);
    assert_eq!(
        ahead.next_directory(),
        Some(("/srv/d".to_owned(), "out/d".to_owned()))
    );
    assert_eq!(ahead.next_directory(), None);
}

#[test]
fn trees_are_walked_and_links_skipped() {
    let mut walk = TreeWalk::new(TransferDirection::Download, "/srv", "/local", LocalPaths::Posix);
    let (source, destination) = walk.next_directory().unwrap();
    assert_eq!(source, "/srv");
    assert_eq!(
        walk.visit(&source, &destination, Some("f"), Node::File { len: 2 }, false)
            .unwrap(),
        WalkAction::Transfer {
            source: "/srv/f".to_owned(),
            destination: "/local/f".to_owned()
        }
    );
    assert_eq!(
        walk.visit(&source, &destination, Some("l"), Node::Link, false)
            .unwrap(),
        WalkAction::Skip
    );
    assert_eq!(walk.summary.skipped, 1);
    assert!(walk
        .visit(&source, &destination, Some("../x"), Node::File { len: 2 }, false)
        .is_err());
    assert_eq!(
        walk.visit(&source, &destination, Some("d"), Node::Directory, true),
        Err(TransferProblem::Cancelled)
    );
}

#[test]
fn local_staging_paths_separate_resume_and_fresh_modes() {
    assert_eq!(
        stable_local_staging_path("target.bin"),
        "target.bin.kaduox.part"
    );
    let first = unique_local_staging_path("target.bin", 77, 1_000, 0);
    let second = unique_local_staging_path("target.bin", 77, 1_000, 1);
    assert_ne!(first, second);
    assert_ne!(first, stable_local_staging_path("target.bin"));
}

#[test]
fn atomic_publish_creates_absent_final_and_removes_staging() {
    assert_eq!(check_publish(Node::File { len: 7 }), Ok(()));
    assert_eq!(publish_result(LinkOutcome::Linked, true), Ok(()));
    assert_eq!(
        publish_result(LinkOutcome::Linked, false),
        Err(TransferProblem::CleanupFailed)
    );
}

#[test]
fn atomic_publish_never_replaces_existing_final() {
    assert!(publish_result(LinkOutcome::Occupied, false).is_err());
    assert_eq!(
        publish_result(LinkOutcome::Occupied, false),
        Err(TransferProblem::DestinationExists)
    );
}

#[test]
fn fresh_staging_open_is_exclusive() {
    assert!(atomic_open_flags(false).exclusive);
    assert!(!atomic_open_flags(false).truncate);
}

#[test]
fn oversized_resume_staging_is_rejected() {
    assert!(validate_resume_staging(Node::File { len: 9 }, 2).is_err());
    assert!(validate_resume_staging(Node::File { len: 2 }, 2).is_ok());
}

#[test]
fn resume_staging_symlink_is_rejected() {
    assert!(validate_resume_staging(Node::Link, 100).is_err());
}

#[test]
fn resume_staging_path_remains_stable() {
    assert_eq!(
        stable_remote_staging_path("/srv/app.bin"),
        "/srv/app.bin.kaduox.part"
    );
}

#[test]
fn fresh_atomic_staging_paths_are_unique_siblings() {
    let first = unique_remote_staging_path("/srv/app.bin", 77, 1_000, 0);
    let second = unique_remote_staging_path("/srv/app.bin", 77, 1_000, 1);
    assert!(first.starts_with("/srv/app.bin.kaduox.part."));
    assert!(second.starts_with("/srv/app.bin.kaduox.part."));
    assert_ne!(first, second);
    assert_ne!(first, stable_remote_staging_path("/srv/app.bin"));
}

#[test]
fn fresh_atomic_open_requires_exclusive_creation() {
    let flags = atomic_open_flags(false);
    assert!(flags.create);
    assert!(flags.exclusive);
    assert!(!flags.truncate);
}

#[test]
fn resumed_atomic_open_never_recreates_or_truncates_staging() {
    let flags = atomic_open_flags(true);
    assert!(!flags.create);
    assert!(!flags.exclusive);
    assert!(!flags.truncate);
}

#[test]
fn registry_retention_is_bounded() {
    assert!(TransferTaskRegistry::new(0).is_err());
    assert!(TransferTaskRegistry::new(MAX_TRANSFER_TASK_RETENTION + 1).is_err());
    assert!(TransferTaskRegistry::new(1).is_ok());
}

#[test]
fn lifecycle_records_progress_and_cancellation() {
    let mut registry = TransferTaskRegistry::new(4).unwrap();
    let task = registry
        .register(TransferTaskKind::DownloadFile, "/remote/a", "local-a")
        .unwrap();
    registry.mark_running(task.id()).unwrap();
    registry
        .record_progress(
            task.id(),
            &TransferEvent {
                direction: TransferDirection::Download,
                path: "/remote/a".to_owned(),
                bytes_transferred: 32,
                total_bytes: Some(64),
                completed: false,
            },
        )
        .unwrap();
    assert!(registry.request_cancel(task.id()).unwrap());
    assert!(task.cancellation().is_cancelled());
    registry.mark_cancelled(task.id()).unwrap();

    let snapshot = registry.get(task.id()).unwrap();
    assert_eq!(snapshot.state, TransferTaskState::Cancelled);
    assert!(snapshot.cancel_requested);
    assert_eq!(snapshot.progress.unwrap().bytes_transferred, 32);
}

#[test]
fn retry_keeps_paths_and_lineage() {
    let mut registry = TransferTaskRegistry::new(4).unwrap();
    let first = registry
        .register(TransferTaskKind::UploadDirectory, "local", "/remote")
        .unwrap();
    registry.mark_running(first.id()).unwrap();
    registry.fail(first.id(), "network failed").unwrap();

    let retry = registry.register_retry(first.id()).unwrap();
    let snapshot = registry.get(retry.id()).unwrap();
    assert_eq!(snapshot.source, "local");
    assert_eq!(snapshot.destination, "/remote");
    assert_eq!(snapshot.retry_of, Some(first.id()));
    assert_eq!(snapshot.state, TransferTaskState::Queued);
}

#[test]
fn completed_entries_are_pruned_before_active_tasks() {
    let mut registry = TransferTaskRegistry::new(2).unwrap();
    let first = registry
        .register(TransferTaskKind::UploadFile, "a", "b")
        .unwrap();
    registry.mark_running(first.id()).unwrap();
    registry
        .complete(first.id(), TransferSummary::default())
        .unwrap();
    let second = registry
        .register(TransferTaskKind::UploadFile, "c", "d")
        .unwrap();
    let third = registry
        .register(TransferTaskKind::UploadFile, "e", "f")
        .unwrap();

    assert!(registry.get(first.id()).is_none());
    assert!(registry.get(second.id()).is_some());
    assert!(registry.get(third.id()).is_some());
    assert!(registry
        .register(TransferTaskKind::UploadFile, "g", "h")
        .is_err());
}

#[test]
fn wrong_progress_direction_fails_closed() {
    let mut registry = TransferTaskRegistry::new(2).unwrap();
    let task = registry
        .register(TransferTaskKind::UploadFile, "local", "/remote")
        .unwrap();
    registry.mark_running(task.id()).unwrap();
    assert!(registry
        .record_progress(
            task.id(),
            &TransferEvent {
                direction: TransferDirection::Download,
                path: "/remote".to_owned(),
                bytes_transferred: 1,
                total_bytes: None,
                completed: false,
            },
        )
        .is_err());
}

#[test]
fn tracked_local_path_requires_utf8_when_platform_allows_non_utf8() {
    assert_eq!(local_task_path(Some("local/file")).unwrap(), "local/file");
    assert!(local_task_path(None).is_none());
}

#[test]
fn tracked_progress_queue_is_bounded() {
    assert_eq!(TRACKED_PROGRESS_QUEUE, 64);
}

#[test]
fn tracked_tasks_end_in_the_state_of_their_transfer() {
    let mut registry = TransferTaskRegistry::new(8).unwrap();
    let done = start_task(&mut registry, TransferTaskKind::UploadFile, "a", "b").unwrap();
    assert_eq!(
        registry.get(done.id()).unwrap().state,
        TransferTaskState::Running
    );
    let summary = TransferSummary::one_file(9);
    finish_task(&mut registry, done.id(), TransferOutcome::Done(summary), false).unwrap();
    let snapshot = registry.get(done.id()).unwrap();
    assert_eq!(snapshot.state, TransferTaskState::Completed);
    assert_eq!(snapshot.summary, Some(summary));
    assert_eq!(
        start_retry(&mut registry, done.id()).unwrap_err(),
        TaskProblem::NotRetryable
    );
    let failed = start_task(&mut registry, TransferTaskKind::UploadFile, "a", "b").unwrap();
    let outcome = TransferOutcome::Failed("broken pipe".to_owned());
    finish_task(&mut registry, failed.id(), outcome, false).unwrap();
    let snapshot = registry.get(failed.id()).unwrap();
    assert_eq!(snapshot.state, TransferTaskState::Failed);
    assert_eq!(snapshot.error.as_deref(), Some("broken pipe"));
    let stopped = start_task(&mut registry, TransferTaskKind::UploadFile, "a", "b").unwrap();
    let outcome = TransferOutcome::Failed("cancelled".to_owned());
    finish_task(&mut registry, stopped.id(), outcome, true).unwrap();
    assert_eq!(
        registry.get(stopped.id()).unwrap().state,
        TransferTaskState::Cancelled
    );
    let recent: Vec<u64> = registry.recent(2).iter().map(|s| s.id.get()).collect();
    assert_eq!(recent, vec![stopped.id().get(), failed.id().get()]);
    assert_eq!(registry.clear_finished(), 3);
}

#[test]
fn tasks_that_do_not_run_are_not_settled() {
    let mut registry = TransferTaskRegistry::new(2).unwrap();
    let waiting = registry.register(TransferTaskKind::UploadFile, "a", "b").unwrap();
    let failed = || TransferOutcome::Failed("broken pipe".to_owned());
    assert_eq!(
        finish_task(&mut registry, waiting.id(), failed(), false),
        Err(TaskProblem::NotRunning)
    );
    assert_eq!(
        registry.get(waiting.id()).unwrap().state,
        TransferTaskState::Queued
    );
    finish_task(&mut registry, waiting.id(), failed(), true).unwrap();
    assert_eq!(
        registry.get(waiting.id()).unwrap().state,
        TransferTaskState::Cancelled
    );
    assert_eq!(
        finish_task(&mut registry, waiting.id(), failed(), true),
        Err(TaskProblem::NotCancellable)
    );
    let lost = TransferOutcome::TrackingLost("late".to_owned());
    assert_eq!(
        finish_task(&mut registry, waiting.id(), lost, true),
        Err(TaskProblem::NotRunning)
    );
    let again = start_retry(&mut registry, waiting.id()).unwrap();
    let snapshot = registry.get(again.id()).unwrap();
    assert_eq!(snapshot.state, TransferTaskState::Running);
    assert_eq!(snapshot.retry_of, Some(waiting.id()));
    start_task(&mut registry, TransferTaskKind::UploadFile, "c", "d").unwrap();
    assert!(registry.get(waiting.id()).is_none());
    assert_eq!(
        start_task(&mut registry, TransferTaskKind::UploadFile, "e", "f").unwrap_err(),
        TaskProblem::Full
    );
    assert_eq!(
        start_task(&mut registry, TransferTaskKind::UploadFile, "", "f").unwrap_err(),
        TaskProblem::EmptySource
    );
}

#[test]
fn cancellations_are_shared() {
    let flag = TransferCancellation::new();
    let other = flag.share();
    assert!(!other.is_cancelled());
    flag.cancel();
    assert!(other.is_cancelled());
}

#[test]
fn atomic_uploads_end_with_the_rename() {
    let options = TransferOptions::default();
    let mut transfer = FileTransfer::new(TransferDirection::Upload, &options);
    let mut event = FileEvent::Done;
    let mut published = false;
    for _ in 0..40 {
        let step = transfer.step(event, false);
        event = match step.action {
            FileAction::LookAtSource => FileEvent::Found(Node::File { len: 5 }),
            FileAction::LookAtDestination => FileEvent::Found(Node::Missing),
            FileAction::LookAtWork => FileEvent::FoundWork { node: Node::Missing, len: 0 },
            FileAction::Open { mode, offset } => {
                assert!(mode.create && mode.exclusive);
                assert_eq!(offset, 0);
                FileEvent::Done
            }
            FileAction::CopyChunk => {
                if step.progress.map(|p| p.bytes) == Some(5) {
                    FileEvent::Copied(0)
                } else {
                    FileEvent::Copied(5)
                }
            }
            FileAction::Publish => {
                published = true;
                FileEvent::Done
            }
            FileAction::Finish { copied } => {
                assert!(published);
                assert_eq!(copied, 5);
                return;
            }
            FileAction::Fail(problem) => panic!("{problem:?}"),
            _ => FileEvent::Done,
        };
    }
    panic!("the transfer never ends")
}

#[test]
fn cancelled_uploads_fail() {
    let options = TransferOptions::default();
    let mut transfer = FileTransfer::new(TransferDirection::Upload, &options);
    let mut step = transfer.step(FileEvent::Done, true);
    for _ in 0..3 {
        if matches!(step.action, FileAction::Fail(_)) {
            break;
        }
        step = transfer.step(FileEvent::Done, true);
    }
    assert_eq!(step.action, FileAction::Fail(TransferProblem::Cancelled));
}

#[test]
fn downloads_in_place_may_go_to_a_device() {
    let source = Node::File { len: 5 };
    let copy = TransferStart::Copy {
        offset: 0,
        total: 5,
        open: OpenMode { create: true, exclusive: false, truncate: true },
    };
    for resume in [false, true] {
        assert_eq!(
            start_in_place(TransferDirection::Download, resume, false, source, Node::Other, 0),
            Ok(copy)
        );
        assert_eq!(
            start_in_place(TransferDirection::Upload, resume, false, source, Node::Other, 0),
            Err(TransferProblem::WorkNotFile)
        );
    }
    assert_eq!(
        start_in_place(TransferDirection::Download, true, false, source, Node::Link, 9),
        Err(TransferProblem::WorkIsLink)
    );
}

#[test]
fn downloads_in_place_take_the_length_of_a_directory() {
    let source = Node::File { len: 5000 };
    let start = |direction, resume, len| {
        start_in_place(direction, resume, false, source, Node::Directory, len)
    };
    let copy = |offset| {
        Ok(TransferStart::Copy {
            offset,
            total: 5000,
            open: OpenMode { create: true, exclusive: false, truncate: offset == 0 },
        })
    };
    assert_eq!(start(TransferDirection::Download, false, 4096), copy(0));
    assert_eq!(start(TransferDirection::Download, true, 4096), copy(4096));
    assert_eq!(
        start(TransferDirection::Download, true, 8192),
        Ok(TransferStart::Complete { total: 5000 })
    );
    assert_eq!(
        start(TransferDirection::Upload, true, 8192),
        Err(TransferProblem::WorkNotFile)
    );
    assert_eq!(
        start_in_place(TransferDirection::Download, true, false, source, Node::Missing, 8192),
        copy(0)
    );
}

#[test]
fn names_with_a_drive_are_not_downloaded() {
    let file = Node::File { len: 1 };
    let drive = TransferProblem::Name(RemotePathProblem::Drive);
    let mut walk = TreeWalk::new(TransferDirection::Download, "/srv", "out", LocalPaths::Windows);
    assert_eq!(walk.visit("/srv", "out", Some("C:escape"), file, false), Err(drive));
    assert!(walk.visit("/srv", "out", Some("escape"), file, false).is_ok());
    let mut posix = TreeWalk::new(TransferDirection::Download, "/srv", "out", LocalPaths::Posix);
    assert!(posix.visit("/srv", "out", Some("C:escape"), file, false).is_ok());
    let mut up = TreeWalk::new(TransferDirection::Upload, "out", "/srv", LocalPaths::Windows);
    assert!(up.visit("out", "/srv", Some("C:escape"), file, false).is_ok());

    let mut book = NodeBook::new();
    book.insert("out".to_owned(), Node::Directory);
    let mut ahead = DownloadPreflight::start("/srv", "out", LocalPaths::Windows, &book).unwrap();
    assert_eq!(
        ahead.visit("/srv", "out", "C:escape", file, false, &book),
        Err(PreflightStop::Refused(drive, "/srv".to_owned()))
    );
}

#[test]
fn kept_tasks_keep_their_flags() {
    let mut registry = TransferTaskRegistry::new(8).unwrap();
    let first = start_task(&mut registry, TransferTaskKind::UploadFile, "a", "b").unwrap();
    let done = start_task(&mut registry, TransferTaskKind::UploadFile, "a", "b").unwrap();
    let last = start_task(&mut registry, TransferTaskKind::UploadFile, "a", "b").unwrap();
    finish_task(
        &mut registry,
        done.id(),
        TransferOutcome::Done(TransferSummary::one_file(1)),
        false,
    )
    .unwrap();
    assert_eq!(registry.clear_finished(), 1);
    assert_eq!(registry.request_cancel(last.id()), Ok(true));
    assert_eq!(registry.request_cancel(last.id()), Ok(false));
    assert_eq!(registry.request_cancel(done.id()), Err(TaskProblem::Unknown));
    assert!(last.cancellation().is_cancelled());
    assert!(registry.cancellation(last.id()).unwrap().is_cancelled());
    assert!(!first.cancellation().is_cancelled());
    assert!(!registry.cancellation(first.id()).unwrap().is_cancelled());
    assert_eq!(
        registry.get(last.id()).unwrap().state,
        TransferTaskState::Running
    );
}
