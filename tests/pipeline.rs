use dev_backup::error::BackupError;
use dev_backup::pipeline::{export_pipeline, import_pipeline, pipeline_outcome, PipelineRun, PipelineStep};

#[test]
fn middle_stage_failure_is_reported_against_that_stage() {
    let stages = export_pipeline("/snap/dev@2024-02", Some("/snap/dev@2024-01"), "/out/a.age", "age1key");
    match pipeline_outcome(&stages, &vec![true, false, true]) {
        Err(BackupError::PipelineStage { stage }) => assert_eq!(stage, "zstd"),
        other => panic!("unexpected {other:?}"),
    }
    let stages = import_pipeline("/in/a.age", "/restore", "/keys/k");
    match pipeline_outcome(&stages, &vec![true, false, true]) {
        Err(BackupError::PipelineStage { stage }) => assert_eq!(stage, "zstd decode"),
        other => panic!("unexpected {other:?}"),
    }
}

#[test]
fn the_first_failing_stage_is_named() {
    let stages = export_pipeline("/snap/s", None, "/out/a.age", "age1key");
    assert!(pipeline_outcome(&stages, &vec![true, true, true]).is_ok());
    match pipeline_outcome(&stages, &vec![true, false, false]) {
        Err(BackupError::PipelineStage { stage }) => assert_eq!(stage, "zstd"),
        other => panic!("unexpected {other:?}"),
    }
    match pipeline_outcome(&stages, &vec![false, true, false]) {
        Err(BackupError::PipelineStage { stage }) => assert_eq!(stage, "btrfs send"),
        other => panic!("unexpected {other:?}"),
    }
    match pipeline_outcome(&stages, &vec![true, true, false]) {
        Err(BackupError::PipelineStage { stage }) => assert_eq!(stage, "age"),
        other => panic!("unexpected {other:?}"),
    }
}

#[test]
fn export_and_import_stages() {
    let stages = export_pipeline("/snap/b", Some("/snap/a"), "/out/f", "age1key");
    assert_eq!(stages[0].program, "btrfs");
    assert_eq!(stages[0].args, vec!["send", "-p", "/snap/a", "/snap/b"]);
    assert_eq!(stages[1].args, vec!["-3"]);
    assert_eq!(stages[2].program, "age");
    assert_eq!(stages[2].args, vec!["-R", "age1key", "-o", "/out/f"]);
    let full = export_pipeline("/snap/b", None, "/out/f", "age1key");
    assert_eq!(full[0].args, vec!["send", "/snap/b"]);
    let stages = import_pipeline("/in/f", "/restore", "/keys/k");
    let names: Vec<&str> = stages.iter().map(|s| s.name.as_str()).collect();
    assert_eq!(names, vec!["age decrypt", "zstd decode", "btrfs receive"]);
    assert_eq!(stages[0].args, vec!["-d", "-i", "/keys/k", "/in/f"]);
    assert_eq!(stages[2].args, vec!["receive", "/restore"]);
}

#[test]
fn every_stage_starts_before_any_wait() {
    let mut run = PipelineRun::new(3);
    let mut steps = Vec::new();
    loop {
        let step = run.next_step();
        steps.push(step);
        match step {
            PipelineStep::Spawn(_) => run.record_spawn(),
            PipelineStep::Wait(i) => run.record_exit(i != 1),
            PipelineStep::Finished => break,
        }
    }
    assert_eq!(
        steps,
        vec![
            PipelineStep::Spawn(0),
            PipelineStep::Spawn(1),
            PipelineStep::Spawn(2),
            PipelineStep::Wait(0),
            PipelineStep::Wait(1),
            PipelineStep::Wait(2),
            PipelineStep::Finished,
        ]
    );
    let stages = export_pipeline("/s", None, "/o", "k");
    match run.result(&stages) {
        Err(BackupError::PipelineStage { stage }) => assert_eq!(stage, "zstd"),
        other => panic!("unexpected {other:?}"),
    }
}
