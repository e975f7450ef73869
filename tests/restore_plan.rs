use dev_backup::chain::plan_restore;
use dev_backup::manifest::parse_manifest;

fn manifest_bytes(lines: &[String]) -> Vec<u8> {
    let mut body = String::from("ts\tlabel\ttype\tparent\tbytes\tsha256\tlocal_path\tobject_key\n");
    for line in lines {
        body.push_str(line);
        body.push('\n');
    }
    body.into_bytes()
}

fn sample_lines(ls_root: &str) -> (String, String, Vec<String>) {
    let anchor_path = format!("{ls_root}/artifacts/anchors/dev@2024-01.full.send.zst.age");
    let incr_path = format!("{ls_root}/artifacts/incr/dev@2024-02.incr.from_2024-01.send.zst.age");
    let anchor_line = format!("2024-01-01T00:00:00Z\t2024-01\tanchor\t\t1\tdeadbeef\t{}\t", anchor_path);
    let incr_line = format!(
        "2024-02-01T00:00:00Z\t2024-02\tincremental\t2024-01\t2\tbeadfeed\t{}\t",
        incr_path
    );
    (anchor_path, incr_path, vec![anchor_line, incr_line])
}

#[test]
fn restore_plan_includes_anchor_and_incremental() {
    let (anchor_path, incr_path, lines) = sample_lines("/srv/ls");
    let records = parse_manifest(&manifest_bytes(&lines)).unwrap();
    let plan = plan_restore(&records, "2024-02", &Vec::new()).unwrap();
    let paths: Vec<&str> = plan.iter().map(|r| r.local_path.as_str()).collect();
    assert_eq!(paths, vec![anchor_path.as_str(), incr_path.as_str()]);
}

#[test]
fn restore_plan_stops_when_parent_snapshot_present() {
    let (_anchor_path, incr_path, lines) = sample_lines("/srv/ls");
    let records = parse_manifest(&manifest_bytes(&lines)).unwrap();
    let present = vec!["2024-01".to_string()];
    let plan = plan_restore(&records, "2024-02", &present).unwrap();
    let paths: Vec<&str> = plan.iter().map(|r| r.local_path.as_str()).collect();
    assert_eq!(paths, vec![incr_path.as_str()]);
}
