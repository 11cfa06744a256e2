//! Verified core of an SSH client: host records, OpenSSH configuration,
//! remote commands, transfer planning and the local daemon protocol.

pub mod auth;
pub mod client;
pub mod codec;
pub mod codec_law;
pub mod command;
pub mod command_law;
pub mod config;
pub mod config_trust;
pub mod connect;
pub mod credentials;
pub mod daemon_client;
pub mod daemon_law;
pub mod daemon_server;
pub mod diagnostics;
pub mod directories;
pub mod endpoint;
pub mod endpoint_law;
pub mod file_transfer;
pub mod format_law;
pub mod forward;
pub mod forward_law;
pub mod handler;
pub mod handler_law;
pub mod host_catalog;
pub mod host_trust;
pub mod host_trust_law;
pub mod import;
pub mod import_law;
pub mod include_law;
pub mod inventory;
pub mod inventory_law;
pub mod inventory_text_law;
pub mod manager;
pub mod manager_law;
pub mod model;
pub mod model_law;
pub mod net;
pub mod net_law;
pub mod nodes;
pub mod openssh_env;
pub mod openssh_include;
pub mod openssh_include_law;
pub mod openssh_law;
pub mod openssh_match;
pub mod paths;
pub mod pattern;
pub mod pattern_law;
pub mod privileged;
pub mod protocol;
pub mod protocol_law;
pub mod remote_fs;
pub mod remote_fs_law;
pub mod remote_mutation;
pub mod remote_mutation_law;
pub mod remote_path;
pub mod resolve_law;
pub mod resolver;
pub mod route_law;
pub mod session_law;
pub mod store;
pub mod store_law;
pub mod symlink_policy;
pub mod sync;
pub mod sync_apply;
pub mod sync_check_law;
pub mod sync_law;
pub mod sync_plan_law;
pub mod sync_preflight;
pub mod sync_scan;
pub mod target;
pub mod target_law;
pub mod task_law;
pub mod text;
pub mod text_law;
pub mod text_map;
pub mod transfer;
pub mod transfer_download_policy;
pub mod transfer_law;
pub mod transfer_policy;
pub mod transfer_task;
pub mod transfer_task_manager;
