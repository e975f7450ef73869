use dev_backup::artifact::{build_artifact_filename, parse_artifact_filename, ArtifactType};
use dev_backup::label::{ensure_label, is_valid_label};
use dev_backup::error::BackupError;

#[test]
fn anchor_name_round_trips() {
    let name = build_artifact_filename("2024-01", None);
    assert_eq!(name, "dev@2024-01.full.send.zst.age");
    let info = parse_artifact_filename(&name).unwrap();
    assert_eq!(info.label, "2024-01");
    assert_eq!(info.artifact_type, ArtifactType::Anchor);
    assert_eq!(info.parent, None);
    assert_eq!(info.filename, name);
}

#[test]
fn incremental_name_round_trips() {
    let name = build_artifact_filename("2024-02", Some("2024-01"));
    assert_eq!(name, "dev@2024-02.incr.from_2024-01.send.zst.age");
    let info = parse_artifact_filename(&name).unwrap();
    assert_eq!(info.label, "2024-02");
    assert_eq!(info.artifact_type, ArtifactType::Incremental);
    assert_eq!(info.parent.as_deref(), Some("2024-01"));
}

#[test]
fn names_outside_the_grammar_are_rejected() {
    let bad = [
        "",
        "dev@",
        "dev@2024-01.full.send.zst",
        "dev@2024-01.full.send.zst.age.bak",
        "prod@2024-01.full.send.zst.age",
        "dev@2024-1.full.send.zst.age",
        "dev@24-01.full.send.zst.age",
        "dev@2024-01.incr.from_.send.zst.age",
        "dev@2024-02.incr.from_2024-01.incr.from_2023-12.send.zst.age",
        "dev@2024-02.incr.from_2024-01.full.send.zst.age",
        "dev@abcd-ef.full.send.zst.age",
        "dev@2024-02.incr.from_2024-0x.send.zst.age",
        "dev@2024-01.send.zst.age",
        "dév@2024-01.full.send.zst.age",
    ];
    for name in bad {
        assert!(parse_artifact_filename(name).is_none(), "{name}");
    }
}

#[test]
fn labels_are_four_digits_dash_two_digits() {
    assert!(is_valid_label("2024-01"));
    assert!(is_valid_label("0000-99"));
    assert!(!is_valid_label("2024-1"));
    assert!(!is_valid_label("2024-011"));
    assert!(!is_valid_label("2024_01"));
    assert!(!is_valid_label("20a4-01"));
    assert!(!is_valid_label("2024-01-01"));
    assert!(!is_valid_label(""));
    assert!(!is_valid_label("latest"));
}

#[test]
fn ensure_label_names_the_bad_label() {
    assert!(ensure_label("2024-12").is_ok());
    match ensure_label("2024/12") {
        Err(BackupError::InvalidLabel { label }) => assert_eq!(label, "2024/12"),
        other => panic!("unexpected {other:?}"),
    }
}
