use dev_backup::chain::{
    latest_label_at, latest_label_from_records, plan_chain_from_records, plan_restore,
    resolve_chain, resolve_label_from_manifest, resolve_label_input, hydration_queue,
};
use dev_backup::error::BackupError;
use dev_backup::manifest::ManifestRecord;

fn record(ts: &str, label: &str, kind: &str, parent: &str) -> ManifestRecord {
    ManifestRecord {
        ts: ts.to_string(),
        label: label.to_string(),
        record_type: kind.to_string(),
        parent: parent.to_string(),
        bytes: 1,
        sha256: "00".to_string(),
        local_path: format!("/ls/{label}"),
        object_key: String::new(),
    }
}

fn two_records() -> Vec<ManifestRecord> {
    vec![
        record("2024-01-01T00:00:00Z", "2024-01", "anchor", ""),
        record("2024-02-01T00:00:00Z", "2024-02", "incremental", "2024-01"),
    ]
}

fn labels(chain: &[ManifestRecord]) -> Vec<&str> {
    chain.iter().map(|r| r.label.as_str()).collect()
}

#[test]
fn chain_runs_back_to_the_anchor_oldest_first() {
    let chain = resolve_chain(&two_records(), "2024-02", &Vec::new()).unwrap();
    assert_eq!(labels(&chain), vec!["2024-01", "2024-02"]);
    assert_eq!(chain[0].record_type, "anchor");
    assert_eq!(chain[1].record_type, "incremental");
}

#[test]
fn chain_stops_at_a_present_parent() {
    let present = vec!["2024-01".to_string()];
    let chain = resolve_chain(&two_records(), "2024-02", &present).unwrap();
    assert_eq!(labels(&chain), vec!["2024-02"]);
}

#[test]
fn chain_of_an_anchor_is_the_anchor() {
    let chain = plan_chain_from_records(&two_records(), "2024-01").unwrap();
    assert_eq!(labels(&chain), vec!["2024-01"]);
}

#[test]
fn latest_follows_timestamps_not_label_order() {
    let records = vec![
        record("2024-03-01T00:00:00Z", "2024-09", "anchor", ""),
        record("2024-05-01T00:00:00+02:00", "2024-01", "incremental", "2024-09"),
        record("2024-04-01T00:00:00Z", "2024-12", "incremental", "2024-01"),
    ];
    assert_eq!(latest_label_from_records(&records).unwrap(), "2024-01");
    let chain = plan_restore(&records, "latest", &Vec::new()).unwrap();
    assert_eq!(labels(&chain), vec!["2024-09", "2024-01"]);
}

#[test]
fn latest_among_equal_instants_is_the_last_seen() {
    let records = vec![
        record("2024-01-01T00:00:00Z", "2024-01", "anchor", ""),
        record("2024-01-01T01:00:00+01:00", "2024-02", "anchor", ""),
    ];
    assert_eq!(latest_label_from_records(&records).unwrap(), "2024-02");
    let r = latest_label_at(&records, &vec![5, 5]).unwrap();
    assert_eq!(r, "2024-02");
    let r = latest_label_at(&records, &vec![7, 5]).unwrap();
    assert_eq!(r, "2024-01");
    assert!(latest_label_at(&Vec::new(), &Vec::new()).is_none());
}

#[test]
fn latest_rejects_a_bad_timestamp() {
    let records = vec![
        record("2024-01-01T00:00:00Z", "2024-01", "anchor", ""),
        record("yesterday", "2024-02", "incremental", "2024-01"),
        record("never", "2024-03", "incremental", "2024-02"),
    ];
    match latest_label_from_records(&records) {
        Err(BackupError::InvalidTimestamp { ts }) => assert_eq!(ts, "yesterday"),
        other => panic!("unexpected {other:?}"),
    }
}

#[test]
fn incremental_without_parent_is_a_chain_integrity_error() {
    let records = vec![
        record("2024-01-01T00:00:00Z", "2024-01", "anchor", ""),
        record("2024-02-01T00:00:00Z", "2024-02", "incremental", ""),
    ];
    match resolve_chain(&records, "2024-02", &Vec::new()) {
        Err(BackupError::MissingParent { label }) => assert_eq!(label, "2024-02"),
        other => panic!("unexpected {other:?}"),
    }
}

#[test]
fn unknown_labels_are_not_found() {
    match resolve_chain(&two_records(), "2023-12", &Vec::new()) {
        Err(BackupError::LabelNotFound { label }) => assert_eq!(label, "2023-12"),
        other => panic!("unexpected {other:?}"),
    }
    let records = vec![record("2024-02-01T00:00:00Z", "2024-02", "incremental", "2024-01")];
    match plan_chain_from_records(&records, "2024-02") {
        Err(BackupError::LabelNotFound { label }) => assert_eq!(label, "2024-01"),
        other => panic!("unexpected {other:?}"),
    }
}

#[test]
fn the_last_row_of_a_label_wins() {
    let mut records = two_records();
    let mut again = record("2024-03-01T00:00:00Z", "2024-02", "anchor", "");
    again.local_path = "/ls/again".to_string();
    records.push(again);
    let chain = resolve_chain(&records, "2024-02", &Vec::new()).unwrap();
    assert_eq!(chain.len(), 1);
    assert_eq!(chain[0].local_path, "/ls/again");
}

#[test]
fn a_cycle_of_parents_fails() {
    let records = vec![
        record("2024-01-01T00:00:00Z", "2024-01", "incremental", "2024-02"),
        record("2024-02-01T00:00:00Z", "2024-02", "incremental", "2024-01"),
    ];
    assert!(matches!(
        resolve_chain(&records, "2024-02", &Vec::new()),
        Err(BackupError::ParentCycle { .. })
    ));
}

#[test]
fn label_input_is_latest_or_a_valid_label() {
    let records = two_records();
    assert_eq!(resolve_label_input(&records, "latest").unwrap(), "2024-02");
    assert_eq!(resolve_label_input(&records, "2023-07").unwrap(), "2023-07");
    assert!(matches!(
        resolve_label_input(&records, "July"),
        Err(BackupError::InvalidLabel { .. })
    ));
    assert!(matches!(
        resolve_label_from_manifest(&Vec::new(), "2024-01"),
        Err(BackupError::EmptyManifest)
    ));
    assert!(matches!(
        plan_restore(&Vec::new(), "latest", &Vec::new()),
        Err(BackupError::EmptyManifest)
    ));
}

#[test]
fn hydration_skips_present_snapshots() {
    let chain = two_records();
    let present = vec!["2024-01".to_string()];
    let queue = hydration_queue(&chain, &present).unwrap();
    assert_eq!(labels(&queue), vec!["2024-02"]);
    let mut broken = two_records();
    broken[1].local_path = String::new();
    match hydration_queue(&broken, &Vec::new()) {
        Err(BackupError::MissingLocalPath { label }) => assert_eq!(label, "2024-02"),
        other => panic!("unexpected {other:?}"),
    }
}
