//! Plans that bring a remote tree in line with a local one.

use kaduox_ssh::remote_path::RemotePathProblem;
use kaduox_ssh::nodes::Node;
use kaduox_ssh::nodes::NodeBook;
use kaduox_ssh::remote_path::LocalPaths;
use kaduox_ssh::sync::build_push_plan;
use kaduox_ssh::sync::validate_sync_plan;
use kaduox_ssh::sync::EntryKind;
use kaduox_ssh::sync::SnapshotEntry;
use kaduox_ssh::sync::SyncAction;
use kaduox_ssh::sync::SyncActionKind;
use kaduox_ssh::sync::SyncOptions;
use kaduox_ssh::sync::SyncPlan;
use kaduox_ssh::sync::SyncProblem;
use kaduox_ssh::sync::SyncRules;
use kaduox_ssh::sync_apply::is_applied;
use kaduox_ssh::sync_apply::sync_steps;
use kaduox_ssh::sync_apply::SyncStep;
use kaduox_ssh::sync_preflight::collect_planned_mutations;
use kaduox_ssh::sync_preflight::preflight_atomic_sync;
use kaduox_ssh::sync_preflight::preflight_local_sync_sources;
use kaduox_ssh::sync_preflight::remote_root_exists_without_symlinks;
use kaduox_ssh::sync_preflight::validate_final_upload_destination;
use kaduox_ssh::sync_preflight::validate_parent_beneath_fresh_ancestor;
use kaduox_ssh::sync_preflight::validate_upload_beneath_fresh_ancestor;
use kaduox_ssh::sync_preflight::PlannedMutation;
use kaduox_ssh::sync_scan::SyncScan;
use kaduox_ssh::text_map::TextMap;

fn file(len: u64, mtime: u32) -> SnapshotEntry {
    SnapshotEntry {
        kind: EntryKind::File,
        len,
        mtime: Some(mtime),
    }
}

fn directory() -> SnapshotEntry {
    SnapshotEntry {
        kind: EntryKind::Directory,
        len: 0,
        mtime: None,
    }
}

fn tree(entries: &[(&str, SnapshotEntry)]) -> TextMap<SnapshotEntry> {
    let mut map = TextMap::new();
    for (path, entry) in entries {
        map.insert(path.to_string(), *entry);
    }
    map
}

fn action(kind: SyncActionKind, path: &str, bytes: u64) -> SyncAction {
    SyncAction {
        kind,
        path: path.to_owned(),
        bytes,
    }
}

fn plan_of(actions: Vec<SyncAction>) -> SyncPlan {
    let mut plan = SyncPlan::default();
    plan.actions = actions;
    plan
}

fn upload_plan(path: &str, bytes: u64) -> SyncPlan {
    SyncPlan {
        actions: vec![action(SyncActionKind::UploadFile, path, bytes)],
        files_to_upload: 1,
        bytes_to_upload: bytes,
        entries_to_delete: 0,
        directories_to_create: 0,
    }
}

fn mutation(
    delete_file: Option<usize>,
    delete_directory: Option<usize>,
    create_directory: Option<usize>,
) -> PlannedMutation {
    PlannedMutation {
        delete_file,
        delete_directory,
        create_directory,
    }
}

fn book(nodes: &[(&str, Node)]) -> NodeBook {
    let mut book = NodeBook::new();
    for (path, node) in nodes {
        book.insert(path.to_string(), *node);
    }
    book
}

fn plain_rules() -> SyncRules {
    SyncOptions::default().rules()
}

fn deleting_rules() -> SyncRules {
    SyncRules {
        delete: true,
        size_only: false,
    }
}

#[test]
fn unchanged_files_do_not_generate_actions() {
    let local = tree(&[("app.bin", file(100, 10))]);
    let remote = tree(&[("app.bin", file(100, 10))]);
    let plan = build_push_plan(&local, &remote, plain_rules()).unwrap();
    assert!(plan.is_empty());
}

#[test]
fn delete_is_explicit_for_remote_extras() {
    let local = tree(&[]);
    let remote = tree(&[("old.bin", file(100, 10))]);
    let safe_plan = build_push_plan(&local, &remote, plain_rules()).unwrap();
    assert!(safe_plan.is_empty());

    let plan = build_push_plan(&local, &remote, deleting_rules()).unwrap();
    assert_eq!(plan.entries_to_delete, 1);
}

#[test]
fn type_conflict_requires_delete_permission() {
    let local = tree(&[("cache", directory())]);
    let remote = tree(&[("cache", file(10, 1))]);
    let refused = build_push_plan(&local, &remote, plain_rules());
    assert!(refused.is_err());
    assert_eq!(refused.unwrap_err().problem, SyncProblem::TypeConflict);
}

#[test]
fn public_sync_plan_rejects_paths_outside_the_selected_root() {
    for path in ["../outside", "nested/../../outside", "/etc/passwd", "a\\..\\b"] {
        let plan = plan_of(vec![action(SyncActionKind::DeleteRemoteFile, path, 0)]);
        assert!(validate_sync_plan(&plan, LocalPaths::Posix).is_err(), "{path:?}");
    }
}

#[test]
fn generated_style_nested_plan_paths_pass_containment_validation() {
    let plan = plan_of(vec![
        action(SyncActionKind::CreateRemoteDirectory, "releases/2026", 0),
        action(SyncActionKind::UploadFile, "releases/2026/app.bin", 123),
    ]);
    validate_sync_plan(&plan, LocalPaths::Posix).unwrap();
}

#[test]
fn plan_order_and_counters_remain_deterministic_without_tree_action_buffers() {
    let local = tree(&[("a", directory()), ("a/new.bin", file(20, 2))]);
    let remote = tree(&[("old.bin", file(10, 1)), ("z", directory())]);
    let plan = build_push_plan(&local, &remote, deleting_rules()).unwrap();
    assert_eq!(
        plan.actions
            .iter()
            .map(|action| (action.kind, action.path.as_str()))
            .collect::<Vec<_>>(),
        vec![
            (SyncActionKind::DeleteRemoteFile, "old.bin"),
            (SyncActionKind::DeleteRemoteDirectory, "z"),
            (SyncActionKind::CreateRemoteDirectory, "a"),
            (SyncActionKind::UploadFile, "a/new.bin"),
        ]
    );
    assert_eq!(plan.files_to_upload, 1);
    assert_eq!(plan.bytes_to_upload, 20);
    assert_eq!(plan.entries_to_delete, 2);
    assert_eq!(plan.directories_to_create, 1);
}

#[test]
fn sizes_alone_decide_when_asked() {
    let local = tree(&[("app.bin", file(100, 12))]);
    let remote = tree(&[("app.bin", file(100, 10))]);
    let plan = build_push_plan(&local, &remote, plain_rules()).unwrap();
    assert_eq!(plan.files_to_upload, 1);
    let rules = SyncRules {
        delete: false,
        size_only: true,
    };
    assert!(build_push_plan(&local, &remote, rules).unwrap().is_empty());
}

#[test]
fn byte_counts_never_wrap() {
    let local = tree(&[("a", file(u64::MAX, 1)), ("b", file(1, 1))]);
    let refused = build_push_plan(&local, &tree(&[]), plain_rules());
    assert_eq!(refused.unwrap_err().problem, SyncProblem::ByteOverflow);
}

#[test]
fn existing_file_requires_matching_delete_for_atomic_upload() {
    assert!(validate_final_upload_destination(
        "/srv/app.bin",
        Node::Other,
        PlannedMutation::default(),
    )
    .unwrap_err()
    .message()
    .contains("--no-atomic"));
    validate_final_upload_destination("/srv/app.bin", Node::Other, mutation(Some(0), None, None))
        .unwrap();
}

#[test]
fn existing_directory_requires_directory_delete_for_file_replacement() {
    validate_final_upload_destination("/srv/app", Node::Directory, mutation(None, Some(0), None))
        .unwrap();
    assert!(validate_final_upload_destination(
        "/srv/app",
        Node::Directory,
        mutation(Some(0), None, None),
    )
    .is_err());
}

#[test]
fn absent_atomic_upload_destination_rejects_stale_delete() {
    validate_final_upload_destination("/srv/new.bin", Node::Missing, PlannedMutation::default())
        .unwrap();
    assert!(validate_final_upload_destination(
        "/srv/new.bin",
        Node::Missing,
        mutation(Some(0), None, None),
    )
    .is_err());
}

#[test]
fn upload_and_create_directory_same_path_is_rejected() {
    assert!(
        validate_upload_beneath_fresh_ancestor("release", mutation(None, None, Some(0))).is_err()
    );
}

#[test]
fn duplicate_or_contradictory_mutations_are_rejected() {
    let duplicate = plan_of(vec![
        action(SyncActionKind::DeleteRemoteFile, "app.bin", 0),
        action(SyncActionKind::DeleteRemoteFile, "app.bin", 0),
    ]);
    assert!(collect_planned_mutations(&duplicate).is_err());

    let contradictory = plan_of(vec![
        action(SyncActionKind::DeleteRemoteFile, "app", 0),
        action(SyncActionKind::DeleteRemoteDirectory, "app", 0),
    ]);
    assert!(collect_planned_mutations(&contradictory).is_err());
}

#[test]
fn delete_must_precede_same_path_directory_recreation() {
    let safe = plan_of(vec![
        action(SyncActionKind::DeleteRemoteFile, "app", 0),
        action(SyncActionKind::CreateRemoteDirectory, "app", 0),
    ]);
    collect_planned_mutations(&safe).unwrap();

    let unsafe_order = plan_of(vec![
        action(SyncActionKind::CreateRemoteDirectory, "app", 0),
        action(SyncActionKind::DeleteRemoteFile, "app", 0),
    ]);
    assert!(collect_planned_mutations(&unsafe_order).is_err());
}

#[test]
fn fresh_ancestor_rejects_stale_delete_but_allows_directory_creation() {
    validate_parent_beneath_fresh_ancestor("app/assets", mutation(None, None, Some(0))).unwrap();
    assert!(validate_parent_beneath_fresh_ancestor(
        "app/assets",
        mutation(Some(0), None, Some(1))
    )
    .is_err());
}

#[test]
fn accepts_regular_source_with_planned_size() {
    let nodes = book(&[
        ("/root", Node::Directory),
        ("/root/nested", Node::Directory),
        ("/root/nested/app.bin", Node::File { len: 4 }),
    ]);
    preflight_local_sync_sources("/root", &upload_plan("nested/app.bin", 4), LocalPaths::Posix, &nodes).unwrap();
}

#[test]
fn rejects_stale_source_size_before_mutation() {
    let nodes = book(&[
        ("/root", Node::Directory),
        ("/root/app.bin", Node::File { len: 7 }),
    ]);
    let error =
        preflight_local_sync_sources("/root", &upload_plan("app.bin", 3), LocalPaths::Posix, &nodes).unwrap_err();
    assert_eq!(error.problem, SyncProblem::SourceChanged);
    assert!(error.message().contains("sync plan is stale"));
}

#[test]
fn rejects_missing_source_before_mutation() {
    let nodes = book(&[
        ("/root", Node::Directory),
        ("/root/missing.bin", Node::Missing),
    ]);
    let error =
        preflight_local_sync_sources("/root", &upload_plan("missing.bin", 1), LocalPaths::Posix, &nodes).unwrap_err();
    assert_eq!(error.problem, SyncProblem::SourceMissing);
    assert!(error.message().contains("failed to stat sync upload source"));
}

#[test]
fn rejects_symlinked_parent_that_escapes_source_root() {
    let nodes = book(&[
        ("/root", Node::Directory),
        ("/root/escape", Node::Link),
        ("/root/escape/secret.bin", Node::File { len: 6 }),
    ]);
    let error = preflight_local_sync_sources("/root", &upload_plan("escape/secret.bin", 6), LocalPaths::Posix, &nodes)
        .unwrap_err();
    assert!(error.message().contains("symbolic-link/reparse component"));
}

#[test]
fn unknown_nodes_are_asked_for() {
    let error = preflight_local_sync_sources("/root", &upload_plan("app.bin", 1), LocalPaths::Posix, &book(&[]))
        .unwrap_err();
    assert_eq!(error.problem, SyncProblem::NeedNode);
    let error = remote_root_exists_without_symlinks("/srv", &book(&[])).unwrap_err();
    assert_eq!(error.problem, SyncProblem::NeedNode);
    assert_eq!(error.subject, "/srv");
    assert_eq!(
        remote_root_exists_without_symlinks("/srv", &book(&[("/srv", Node::Missing)])),
        Ok(false)
    );
    assert_eq!(
        remote_root_exists_without_symlinks("/srv", &book(&[("/srv", Node::Directory)])),
        Ok(true)
    );
    assert_eq!(
        remote_root_exists_without_symlinks("/srv", &book(&[("/srv", Node::Link)]))
            .unwrap_err()
            .problem,
        SyncProblem::RootIsLink
    );
}

#[test]
fn atomic_uploads_never_overwrite_unasked() {
    let plan = upload_plan("app.bin", 4);
    let taken = book(&[
        ("/srv", Node::Directory),
        ("/srv/app.bin", Node::File { len: 9 }),
    ]);
    assert_eq!(
        preflight_atomic_sync("/srv", &plan, &taken).unwrap_err().problem,
        SyncProblem::AtomicOverwrite
    );
    let free = book(&[("/srv", Node::Directory), ("/srv/app.bin", Node::Missing)]);
    preflight_atomic_sync("/srv", &plan, &free).unwrap();
}

#[test]
fn plans_are_carried_out_below_both_roots() {
    let plan = plan_of(vec![
        action(SyncActionKind::DeleteRemoteFile, "old", 0),
        action(SyncActionKind::CreateRemoteDirectory, "a", 0),
        action(SyncActionKind::UploadFile, "a/new.bin", 2),
    ]);
    let steps = sync_steps("/local", "/srv", &plan, LocalPaths::Posix).unwrap();
    assert_eq!(steps[0], SyncStep::RemoveFile("/srv/old".to_owned()));
    assert!(matches!(
        steps.last(),
        Some(SyncStep::Upload { local, remote })
            if local == "/local/a/new.bin" && remote == "/srv/a/new.bin"
    ));
    assert!(!is_applied(&plan, true));
    assert!(is_applied(&plan, false));
    assert!(!is_applied(&SyncPlan::default(), false));
}

#[test]
fn scans_take_down_files_and_directories() {
    let mut scan = SyncScan::start_local("/root", Node::Directory).unwrap();
    let (path, relative) = scan.next_directory().unwrap();
    assert_eq!((path.as_str(), relative.as_str()), ("/root", ""));
    scan.visit_local(&path, &relative, Some("sub"), Node::Directory, None)
        .unwrap();
    scan.visit_local(&path, &relative, Some("f"), Node::File { len: 3 }, Some(9))
        .unwrap();
    scan.visit_local(&path, &relative, Some("link"), Node::Link, None)
        .unwrap();
    let (path, relative) = scan.next_directory().unwrap();
    assert_eq!((path.as_str(), relative.as_str()), ("/root/sub", "sub"));
    assert!(scan.next_directory().is_none());
    assert_eq!(scan.snapshot.get("f"), Some(&file(3, 9)));
    assert_eq!(scan.snapshot.get("sub").unwrap().kind, EntryKind::Directory);
    assert!(scan.snapshot.get("link").is_none());
    assert_eq!(
        SyncScan::start_local("/root", Node::Link).unwrap_err().problem,
        SyncProblem::RootIsLink
    );
    assert_eq!(
        SyncScan::start_local("/root", Node::Other).unwrap_err().problem,
        SyncProblem::RootNotDirectory
    );
}

#[test]
fn plans_with_a_drive_are_refused_where_drives_are() {
    let plan = upload_plan("C:escape", 1);
    let drive = SyncProblem::UnsafePath(RemotePathProblem::Drive);
    assert!(validate_sync_plan(&plan, LocalPaths::Posix).is_ok());
    assert_eq!(
        validate_sync_plan(&plan, LocalPaths::Windows).unwrap_err().problem,
        drive
    );
    assert_eq!(
        sync_steps("/local", "/srv", &plan, LocalPaths::Windows).unwrap_err().problem,
        drive
    );
    assert_eq!(
        preflight_local_sync_sources("/root", &plan, LocalPaths::Windows, &book(&[]))
            .unwrap_err()
            .problem,
        drive
    );
}
