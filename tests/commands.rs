use dev_backup::commands::{
    is_local_host, latest_snapshot_label, local_ls_send, remote_ls_send, resolve_remote_target,
    snapshot_readonly, snapshot_writable, subvolume_delete, subvolume_show, encrypt_to_age,
    decrypt_from_age, send_stage, receive_stage, worktree_action, WorktreeAction,
};
use dev_backup::config::{artifact_dir, join_path, manifest_path, snapshot_path, Config, Paths, Remote};
use dev_backup::artifact::ArtifactType;

fn config(remote: Option<Remote>) -> Config {
    Config {
        paths: Paths { dataset: "/data".to_string(), snapshots: "/snaps".to_string(), ls_root: "/ls".to_string() },
        cloud: None,
        crypto: None,
        remote,
    }
}

#[test]
fn snapshot_commands() {
    let s = snapshot_readonly("/data", "/snaps/dev@2024-01");
    assert_eq!(s.program, "btrfs");
    assert_eq!(s.args, vec!["subvolume", "snapshot", "-r", "/data", "/snaps/dev@2024-01"]);
    let s = snapshot_writable("/snaps/dev@2024-01", "/data");
    assert_eq!(s.args, vec!["subvolume", "snapshot", "/snaps/dev@2024-01", "/data"]);
    let s = subvolume_delete("/data");
    assert_eq!(s.args, vec!["subvolume", "delete", "/data"]);
}

#[test]
fn send_commands() {
    let s = local_ls_send("/etc/x.toml", "2024-02", Some("2024-01"));
    assert_eq!(s.program, "dev-backup");
    assert_eq!(s.args, vec!["--config", "/etc/x.toml", "ls", "send", "2024-02", "2024-01"]);
    let s = remote_ls_send("alice", "nas", "2024-02", None);
    assert_eq!(s.program, "ssh");
    assert_eq!(
        s.args,
        vec!["alice@nas", "dev-backup", "--config", "/etc/dev-backup/config.toml", "ls", "send", "2024-02"]
    );
}

#[test]
fn remote_target_prefers_request_then_config_then_defaults() {
    let cfg = config(Some(Remote { ls_host: Some("nas".to_string()), ls_user: None }));
    let (host, user) = resolve_remote_target(&cfg, None, None, "bob".to_string());
    assert_eq!((host.as_str(), user.as_str()), ("nas", "bob"));
    let (host, user) = resolve_remote_target(&cfg, Some("other".to_string()), Some("eve".to_string()), "bob".to_string());
    assert_eq!((host.as_str(), user.as_str()), ("other", "eve"));
    let (host, _) = resolve_remote_target(&config(None), None, None, "bob".to_string());
    assert_eq!(host, "localhost");
    assert!(is_local_host("localhost"));
    assert!(is_local_host("127.0.0.1"));
    assert!(!is_local_host("nas"));
}

#[test]
fn latest_local_snapshot_skips_the_excluded_label() {
    let names: Vec<String> = ["dev@2024-01", "dev@2024-03", "dev@2024-02", "other@2025-01", "dev@2025-1", "dev@2024-04"]
        .iter()
        .map(|s| s.to_string())
        .collect();
    assert_eq!(latest_snapshot_label(&names, "2024-04").as_deref(), Some("2024-03"));
    assert_eq!(latest_snapshot_label(&names, "2023-01").as_deref(), Some("2024-04"));
    assert_eq!(latest_snapshot_label(&Vec::new(), "2024-04"), None);
}

#[test]
fn places_under_the_roots() {
    assert_eq!(snapshot_path("/snaps", "2024-01"), "/snaps/dev@2024-01");
    assert_eq!(manifest_path("/ls"), "/ls/manifests/snapshots_v2.tsv");
    assert_eq!(manifest_path("/ls/"), "/ls/manifests/snapshots_v2.tsv");
    assert_eq!(artifact_dir("/ls/", ArtifactType::Anchor), "/ls/artifacts/anchors");
    assert_eq!(join_path("", "a/b"), "a/b");
    assert_eq!(artifact_dir("/ls", ArtifactType::Anchor), "/ls/artifacts/anchors");
    assert_eq!(artifact_dir("/ls", ArtifactType::Incremental), "/ls/artifacts/incr");
}

#[test]
fn file_level_commands() {
    let s = subvolume_show("/data");
    assert_eq!(s.args, vec!["subvolume", "show", "/data"]);
    let s = encrypt_to_age("/keys/pub", "/tmp/in", "/tmp/out.age");
    assert_eq!(s.program, "age");
    assert_eq!(s.args, vec!["-R", "/keys/pub", "-o", "/tmp/out.age", "/tmp/in"]);
    let s = decrypt_from_age("/keys/key", "/tmp/in.age", "/tmp/out");
    assert_eq!(s.args, vec!["-d", "-i", "/keys/key", "-o", "/tmp/out", "/tmp/in.age"]);
    let s = send_stage("/ls/restore/snapshots/dev@2024-02", Some("/ls/restore/snapshots/dev@2024-01"));
    assert_eq!(s.args, vec!["send", "-p", "/ls/restore/snapshots/dev@2024-01", "/ls/restore/snapshots/dev@2024-02"]);
    let s = receive_stage("/snaps");
    assert_eq!(s.name, "btrfs receive");
    assert_eq!(s.args, vec!["receive", "/snaps"]);
}

#[test]
fn worktree_is_cleared_by_kind() {
    assert_eq!(worktree_action(false, false), WorktreeAction::Nothing);
    assert_eq!(worktree_action(true, true), WorktreeAction::DeleteSubvolume);
    assert_eq!(worktree_action(true, false), WorktreeAction::MoveAside);
}
