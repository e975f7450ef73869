use dev_backup::error::BackupError;
use dev_backup::manifest::ManifestRecord;
use dev_backup::policy::{
    decide_snapshot_type, decide_with_anchor_time, plan_month_backup, sort_by_instants,
    sort_records_by_ts, PolicyInput, SnapshotDecision, MONTH_NANOS,
};

const DAY: i128 = 86_400_000_000_000;
// 2024-01-01T00:00:00Z
const JAN_FIRST: i128 = 1_704_067_200_000_000_000;

fn record(ts: &str, label: &str, kind: &str, parent: &str, bytes: u64) -> ManifestRecord {
    ManifestRecord {
        ts: ts.to_string(),
        label: label.to_string(),
        record_type: kind.to_string(),
        parent: parent.to_string(),
        bytes,
        sha256: String::new(),
        local_path: String::new(),
        object_key: String::new(),
    }
}

fn input(now: i128) -> PolicyInput {
    PolicyInput { now, max_months_between_anchor: 12 }
}

#[test]
fn small_incrementals_keep_the_chain_going() {
    let records = vec![
        record("2024-01-01T00:00:00Z", "2024-01", "anchor", "", 100),
        record("2024-02-01T00:00:00Z", "2024-02", "incremental", "2024-01", 50),
    ];
    let now = JAN_FIRST + 40 * DAY;
    assert_eq!(decide_with_anchor_time(&records, JAN_FIRST, input(now)).unwrap(), SnapshotDecision::Incremental);
    assert_eq!(decide_snapshot_type(&records, input(now)).unwrap(), SnapshotDecision::Incremental);
}

#[test]
fn incrementals_as_large_as_the_anchor_force_an_anchor() {
    let records = vec![
        record("2024-01-01T00:00:00Z", "2024-01", "anchor", "", 100),
        record("2024-02-01T00:00:00Z", "2024-02", "incremental", "2024-01", 50),
        record("2024-02-02T00:00:00Z", "2024-03", "incremental", "2024-02", 50),
    ];
    let now = JAN_FIRST + 40 * DAY;
    assert_eq!(decide_with_anchor_time(&records, JAN_FIRST, input(now)).unwrap(), SnapshotDecision::Anchor);
    assert_eq!(decide_snapshot_type(&records, input(now)).unwrap(), SnapshotDecision::Anchor);
}

#[test]
fn an_old_anchor_forces_an_anchor() {
    let records = vec![record("2024-01-01T00:00:00Z", "2024-01", "anchor", "", 100)];
    let just_before = JAN_FIRST + 12 * MONTH_NANOS - 1;
    let at = JAN_FIRST + 12 * MONTH_NANOS;
    assert_eq!(decide_with_anchor_time(&records, JAN_FIRST, input(just_before)).unwrap(), SnapshotDecision::Incremental);
    assert_eq!(decide_with_anchor_time(&records, JAN_FIRST, input(at)).unwrap(), SnapshotDecision::Anchor);
    let before_anchor = PolicyInput { now: JAN_FIRST - DAY, max_months_between_anchor: 0 };
    assert_eq!(decide_with_anchor_time(&records, JAN_FIRST, before_anchor).unwrap(), SnapshotDecision::Incremental);
    let extreme = PolicyInput { now: i128::MAX, max_months_between_anchor: i64::MAX };
    assert_eq!(decide_with_anchor_time(&records, i128::MIN, extreme).unwrap(), SnapshotDecision::Anchor);
}

#[test]
fn an_empty_anchor_counts_as_one_byte() {
    let records = vec![
        record("2024-01-01T00:00:00Z", "2024-01", "anchor", "", 0),
        record("2024-02-01T00:00:00Z", "2024-02", "incremental", "2024-01", 0),
    ];
    assert_eq!(decide_with_anchor_time(&records, JAN_FIRST, input(JAN_FIRST)).unwrap(), SnapshotDecision::Incremental);
    let mut more = records.clone();
    more[1].bytes = 1;
    assert_eq!(decide_with_anchor_time(&more, JAN_FIRST, input(JAN_FIRST)).unwrap(), SnapshotDecision::Anchor);
}

#[test]
fn huge_incrementals_do_not_overflow() {
    let records = vec![
        record("2024-01-01T00:00:00Z", "2024-01", "anchor", "", u64::MAX),
        record("2024-02-01T00:00:00Z", "2024-02", "incremental", "2024-01", u64::MAX - 1),
        record("2024-03-01T00:00:00Z", "2024-03", "incremental", "2024-02", 1),
        record("2024-04-01T00:00:00Z", "2024-04", "incremental", "2024-03", u64::MAX),
    ];
    assert_eq!(decide_with_anchor_time(&records, JAN_FIRST, input(JAN_FIRST)).unwrap(), SnapshotDecision::Anchor);
}

#[test]
fn policy_edge_cases() {
    assert_eq!(decide_snapshot_type(&Vec::new(), input(0)).unwrap(), SnapshotDecision::Anchor);
    let no_anchor = vec![record("2024-02-01T00:00:00Z", "2024-02", "incremental", "2024-01", 5)];
    assert!(matches!(decide_snapshot_type(&no_anchor, input(0)), Err(BackupError::NoAnchor)));
    let bad_ts = vec![record("soon", "2024-01", "anchor", "", 5)];
    assert!(matches!(decide_snapshot_type(&bad_ts, input(0)), Err(BackupError::InvalidTimestamp { .. })));
    assert_eq!(PolicyInput::default().max_months_between_anchor, 12);
}

#[test]
fn sorting_is_stable_by_instant() {
    let records = vec![
        record("x", "a", "anchor", "", 1),
        record("x", "b", "anchor", "", 2),
        record("x", "c", "anchor", "", 3),
        record("x", "d", "anchor", "", 4),
    ];
    let sorted = sort_by_instants(&records, &vec![3, 1, 3, 1]);
    let order: Vec<&str> = sorted.iter().map(|r| r.label.as_str()).collect();
    assert_eq!(order, vec!["b", "d", "a", "c"]);
    let dated = vec![
        record("2024-03-01T00:00:00Z", "2024-03", "anchor", "", 1),
        record("2024-01-01T00:00:00Z", "2024-01", "anchor", "", 1),
    ];
    let sorted = sort_records_by_ts(&dated).unwrap();
    assert_eq!(sorted[0].label, "2024-01");
}

#[test]
fn month_plan_names_the_parent() {
    let records = vec![
        record("2024-02-01T00:00:00Z", "2024-02", "incremental", "2024-01", 10),
        record("2024-01-01T00:00:00Z", "2024-01", "anchor", "", 100),
    ];
    let now = JAN_FIRST + 40 * DAY;
    assert_eq!(plan_month_backup(&records, input(now)).unwrap().as_deref(), Some("2024-02"));
    assert_eq!(plan_month_backup(&Vec::new(), input(now)).unwrap(), None);
    let later = JAN_FIRST + 400 * DAY;
    assert_eq!(plan_month_backup(&records, input(later)).unwrap(), None);
}
