use dev_backup::error::BackupError;
use dev_backup::manifest::ManifestRecord;
use dev_backup::sync::{build_object_key, mark_uploaded, pull_plan, push_plan};

fn record(label: &str, kind: &str, parent: &str, local_path: &str, object_key: &str) -> ManifestRecord {
    ManifestRecord {
        ts: format!("{label}-01T00:00:00Z"),
        label: label.to_string(),
        record_type: kind.to_string(),
        parent: parent.to_string(),
        bytes: 1,
        sha256: String::new(),
        local_path: local_path.to_string(),
        object_key: object_key.to_string(),
    }
}

#[test]
fn object_keys_are_paths_below_the_root() {
    assert_eq!(
        build_object_key("/srv/ls", "/srv/ls/artifacts/anchors/dev@2024-01.full.send.zst.age"),
        "artifacts/anchors/dev@2024-01.full.send.zst.age"
    );
    assert_eq!(build_object_key("/srv/ls/", "/srv/ls/artifacts/x"), "artifacts/x");
    assert_eq!(build_object_key("/srv/ls", "/srv/ls2/artifacts/x"), "srv/ls2/artifacts/x");
    assert_eq!(build_object_key("/srv/ls", "/elsewhere/x"), "elsewhere/x");
    assert_eq!(build_object_key("/srv/ls", "//srv/ls/x"), "x");
    assert_eq!(build_object_key("/srv//ls", "/srv/ls/a"), "a");
    assert_eq!(build_object_key("/srv/ls", "/srv/./ls/a//b/"), "a//b");
    assert_eq!(build_object_key("/r", "/r/a//b"), "a//b");
    assert_eq!(build_object_key("/r", "/r/a/./b"), "a/./b");
    assert_eq!(build_object_key("/r", "/r/./a/."), "a");
    assert_eq!(build_object_key("srv/ls", "/srv/ls/a"), "srv/ls/a");
    assert_eq!(build_object_key("/", "/a/b"), "a/b");
    assert_eq!(build_object_key("/srv/ls", "/srv/ls"), "");
}

#[test]
fn push_uploads_only_unsynced_records_and_is_idempotent() {
    let mut records = vec![
        record("2024-01", "anchor", "", "/srv/ls/artifacts/anchors/a", "artifacts/anchors/a"),
        record("2024-02", "incremental", "2024-01", "/srv/ls/artifacts/incr/b", ""),
        record("2024-03", "incremental", "2024-02", "/srv/ls/artifacts/incr/c", ""),
    ];
    let plan = push_plan(&records, "/srv/ls").unwrap();
    let summary: Vec<(usize, &str, &str)> =
        plan.iter().map(|u| (u.index, u.key.as_str(), u.path.as_str())).collect();
    assert_eq!(
        summary,
        vec![
            (1, "artifacts/incr/b", "/srv/ls/artifacts/incr/b"),
            (2, "artifacts/incr/c", "/srv/ls/artifacts/incr/c"),
        ]
    );
    for u in plan {
        mark_uploaded(&mut records, u.index, u.key);
    }
    assert_eq!(records[1].object_key, "artifacts/incr/b");
    assert_eq!(records[2].object_key, "artifacts/incr/c");
    let snapshot = records.clone();
    let again = push_plan(&records, "/srv/ls").unwrap();
    assert!(again.is_empty());
    assert_eq!(records, snapshot);
}

#[test]
fn push_needs_a_local_path() {
    let records = vec![record("2024-01", "anchor", "", "", "")];
    match push_plan(&records, "/srv/ls") {
        Err(BackupError::MissingLocalPath { label }) => assert_eq!(label, "2024-01"),
        other => panic!("unexpected {other:?}"),
    }
}

#[test]
fn pull_fetches_the_whole_chain() {
    let records = vec![
        record("2024-01", "anchor", "", "/a", "artifacts/anchors/a"),
        record("2024-02", "incremental", "2024-01", "/b", "artifacts/incr/b"),
    ];
    let plan = pull_plan(&records, "latest").unwrap();
    let keys: Vec<&str> = plan.iter().map(|r| r.object_key.as_str()).collect();
    assert_eq!(keys, vec!["artifacts/anchors/a", "artifacts/incr/b"]);
}

#[test]
fn pull_refuses_an_unsynced_record() {
    let records = vec![
        record("2024-01", "anchor", "", "/a", ""),
        record("2024-02", "incremental", "2024-01", "/b", ""),
    ];
    match pull_plan(&records, "2024-02") {
        Err(BackupError::MissingObjectKey { label }) => assert_eq!(label, "2024-01"),
        other => panic!("unexpected {other:?}"),
    }
    assert!(matches!(pull_plan(&Vec::new(), "latest"), Err(BackupError::EmptyManifest)));
}
