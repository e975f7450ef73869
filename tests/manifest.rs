use dev_backup::artifact::parse_artifact_filename;
use dev_backup::digest::{content_hash, hex_lower};
use dev_backup::error::BackupError;
use dev_backup::manifest::{encode_records, parse_manifest, registration_record, ManifestRecord, ManifestStore};

const HEADER: &str = "ts\tlabel\ttype\tparent\tbytes\tsha256\tlocal_path\tobject_key\n";

#[test]
fn a_manifest_table_decodes_row_by_row() {
    let text = format!(
        "{HEADER}2024-01-01T00:00:00Z\t2024-01\tanchor\t\t1\tdeadbeef\t/a\t\n2024-02-01T00:00:00Z\t2024-02\tincremental\t2024-01\t18446744073709551615\tbeadfeed\t/b\tk/b\n"
    );
    let records = parse_manifest(text.as_bytes()).unwrap();
    assert_eq!(records.len(), 2);
    assert_eq!(records[0].record_type, "anchor");
    assert_eq!(records[0].parent, "");
    assert_eq!(records[0].bytes, 1);
    assert_eq!(records[1].bytes, u64::MAX);
    assert_eq!(records[1].object_key, "k/b");
    assert!(parse_manifest(b"").unwrap().is_empty());
    assert!(parse_manifest(HEADER.as_bytes()).unwrap().is_empty());
}

#[test]
fn malformed_rows_are_rejected() {
    let bad_type = format!("{HEADER}t\t2024-01\tfull\t\t1\th\t/a\t\n");
    assert!(matches!(parse_manifest(bad_type.as_bytes()), Err(BackupError::MalformedRow { row: 0 })));
    let bad_bytes = format!("{HEADER}t\t2024-01\tanchor\t\t1\th\t/a\t\nt\t2024-02\tanchor\t\tmany\th\t/b\t\n");
    assert!(matches!(parse_manifest(bad_bytes.as_bytes()), Err(BackupError::MalformedRow { row: 1 })));
    let too_big = format!("{HEADER}t\t2024-01\tanchor\t\t18446744073709551616\th\t/a\t\n");
    assert!(matches!(parse_manifest(too_big.as_bytes()), Err(BackupError::MalformedRow { row: 0 })));
    let short = format!("{HEADER}t\t2024-01\tanchor\n");
    assert!(matches!(parse_manifest(short.as_bytes()), Err(BackupError::MalformedManifest)));
    let wrong_header = "ts\tlabel\n";
    assert!(matches!(parse_manifest(wrong_header.as_bytes()), Err(BackupError::MalformedManifest)));
}

#[test]
fn encoded_records_read_back() {
    let record = ManifestRecord {
        ts: "2024-01-01T00:00:00Z".to_string(),
        label: "2024-01".to_string(),
        record_type: "anchor".to_string(),
        parent: String::new(),
        bytes: 1234567890,
        sha256: "ab".to_string(),
        local_path: "/srv/ls/a\tb".to_string(),
        object_key: String::new(),
    };
    let records = vec![record.clone()];
    let whole = encode_records(&records, true).unwrap();
    assert!(String::from_utf8(whole.clone()).unwrap().starts_with(HEADER));
    assert_eq!(parse_manifest(&whole).unwrap(), records);
    let row = encode_records(&records, false).unwrap();
    assert!(String::from_utf8(row).unwrap().starts_with("2024-01-01T00:00:00Z\t2024-01\tanchor\t\t1234567890\t"));
}

#[test]
fn registration_fills_the_record_from_the_name() {
    let info = parse_artifact_filename("dev@2024-02.incr.from_2024-01.send.zst.age").unwrap();
    let r = registration_record(&info, "2024-02-01T00:00:00Z".to_string(), 42, "cafe".to_string(), "/ls/x".to_string());
    assert_eq!(r.label, "2024-02");
    assert_eq!(r.record_type, "incremental");
    assert_eq!(r.parent, "2024-01");
    assert_eq!(r.bytes, 42);
    assert_eq!(r.object_key, "");
    let info = parse_artifact_filename("dev@2024-01.full.send.zst.age").unwrap();
    let r = registration_record(&info, "t".to_string(), 1, "h".to_string(), "/ls/y".to_string());
    assert_eq!(r.record_type, "anchor");
    assert_eq!(r.parent, "");
}

#[test]
fn content_hash_is_hex_sha256() {
    assert_eq!(content_hash(b"abc"), "ba7816bf8f01cfea414140de5dae2223b00361a396177a9cb410ff61f20015ad");
    assert_eq!(content_hash(b""), "e3b0c44298fc1c149afbf4c8996fb92427ae41e4649b934ca495991b7852b855");
    assert_eq!(hex_lower(&[0x00, 0x0f, 0xa0, 0xff]), "000fa0ff");
}

#[test]
fn a_store_knows_its_path() {
    let store = ManifestStore::new("/srv/ls/manifests/snapshots_v2.tsv");
    assert_eq!(store.path(), "/srv/ls/manifests/snapshots_v2.tsv");
}

#[test]
fn messages_name_what_failed() {
    assert_eq!(BackupError::InvalidLabel { label: "24-1".to_string() }.message(), "label must be YYYY-MM: 24-1");
    assert_eq!(BackupError::MalformedRow { row: 12 }.message(), "failed to parse manifest data row 12");
    assert_eq!(BackupError::PipelineStage { stage: "zstd".to_string() }.message(), "zstd failed");
    assert_eq!(BackupError::MissingObjectKey { label: "2024-01".to_string() }.message(), "missing object_key for 2024-01");
    assert_eq!(BackupError::EmptyManifest.message(), "manifest is empty");
}

#[test]
fn counts_are_decimal_or_hex_with_an_optional_plus() {
    for (text, value) in [("5", 5u64), ("+5", 5), ("0x1F", 31), ("0x1f", 31), ("0x+1f", 31), ("007", 7)] {
        let row = format!("{HEADER}t\t2024-01\tanchor\t\t{text}\th\t/a\t\n");
        assert_eq!(parse_manifest(row.as_bytes()).unwrap()[0].bytes, value, "{text}");
    }
    for bad in [" 5", "5 ", "-1", "", "+", "0x", "0X1F", "0x1G", "1f", "++5"] {
        let row = format!("{HEADER}t\t2024-01\tanchor\t\t{bad}\th\t/a\t\n");
        assert!(matches!(parse_manifest(row.as_bytes()), Err(BackupError::MalformedRow { row: 0 })), "{bad}");
    }
}
