//! External-process pipelines: the stages to run, the order in which they
//! are started and waited on, and which stage a failure is reported against.
//!
//! Every stage is started, each reading the previous stage's output, before
//! any stage is waited on: a writer blocked on a full pipe is then always
//! drained by a running reader.

use vstd::prelude::*;
use crate::error::{BackupError, ErrorView};

verus! {

/// One external program invocation: a name used in diagnostics, the
/// program, and its arguments.
#[derive(Debug, Clone)]
pub struct Stage {
    pub name: String,
    pub program: String,
    pub args: Vec<String>,
}

/// The view of a `Stage`.
pub struct StageView {
    pub name: Seq<char>,
    pub program: Seq<char>,
    pub args: Seq<Seq<char>>,
}

impl View for Stage {
    type V = StageView;

    open spec fn view(&self) -> StageView {
        StageView {
            name: self.name@,
            program: self.program@,
            args: self.args@.map_values(|a: String| a@),
        }
    }
}

/// The views of a list of stages.
pub open spec fn stages_view(s: Seq<Stage>) -> Seq<StageView> {
    s.map_values(|x: Stage| x@)
}

pub(crate) fn owned(s: &str) -> (r: String)
    ensures
        r@ == s@,
{
    s.to_owned()
}

/// Appends one argument.
pub(crate) fn push_arg(args: &mut Vec<String>, a: &str)
    ensures
        final(args)@.map_values(|x: String| x@) == old(args)@.map_values(|x: String| x@).push(a@),
{
    args.push(owned(a));
    assert(final(args)@.map_values(|x: String| x@) =~= old(args)@.map_values(|x: String| x@).push(
        a@,
    ));
}

/// A stage named `name` that runs `program` with `args`.
pub(crate) fn stage(name: &str, program: &str, args: Vec<String>) -> (r: Stage)
    ensures
        r@ == (StageView {
            name: name@,
            program: program@,
            args: args@.map_values(|x: String| x@),
        }),
{
    Stage { name: owned(name), program: owned(program), args }
}

/// The arguments of `btrfs send`: incremental from `parent` when given.
pub open spec fn send_args(snapshot: Seq<char>, parent: Option<Seq<char>>) -> Seq<Seq<char>> {
    match parent {
        Some(p) => seq!["send"@, "-p"@, p, snapshot],
        None => seq!["send"@, snapshot],
    }
}

/// The view of an optional string.
pub open spec fn opt_view(o: Option<&str>) -> Option<Seq<char>> {
    match o {
        Some(s) => Some(s@),
        None => None,
    }
}

/// The export pipeline: `btrfs send` of the snapshot (incremental from
/// `parent` when given), `zstd -3`, then `age` encrypting to `public_key`
/// into `output_path`.
pub fn export_pipeline(snapshot: &str, parent: Option<&str>, output_path: &str, public_key: &str) -> (r:
    Vec<Stage>)
    ensures
        r@.len() == 3,
        stages_view(r@) == seq![
            StageView {
                name: "btrfs send"@,
                program: "btrfs"@,
                args: send_args(snapshot@, opt_view(parent)),
            },
            StageView { name: "zstd"@, program: "zstd"@, args: seq!["-3"@] },
            StageView {
                name: "age"@,
                program: "age"@,
                args: seq!["-R"@, public_key@, "-o"@, output_path@],
            },
        ],
{
    let mut send: Vec<String> = Vec::new();
    push_arg(&mut send, "send");
    match parent {
        Some(p) => {
            push_arg(&mut send, "-p");
            push_arg(&mut send, p);
        },
        None => {},
    }
    push_arg(&mut send, snapshot);
    assert(send@.map_values(|x: String| x@) =~= send_args(snapshot@, opt_view(parent)));
    let mut compress: Vec<String> = Vec::new();
    push_arg(&mut compress, "-3");
    assert(compress@.map_values(|x: String| x@) =~= seq!["-3"@]);
    let mut encrypt: Vec<String> = Vec::new();
    push_arg(&mut encrypt, "-R");
    push_arg(&mut encrypt, public_key);
    push_arg(&mut encrypt, "-o");
    push_arg(&mut encrypt, output_path);
    assert(encrypt@.map_values(|x: String| x@) =~= seq!["-R"@, public_key@, "-o"@, output_path@]);
    let r = vec![stage("btrfs send", "btrfs", send), stage("zstd", "zstd", compress), stage("age", "age", encrypt)];
    assert(stages_view(r@) =~= seq![r@[0]@, r@[1]@, r@[2]@]);
    r
}

/// The import pipeline: `age` decrypting `input_path` with the key at
/// `private_key`, `zstd -d`, then `btrfs receive` into `snapshot_dir`.
pub fn import_pipeline(input_path: &str, snapshot_dir: &str, private_key: &str) -> (r: Vec<Stage>)
    ensures
        r@.len() == 3,
        stages_view(r@) == seq![
            StageView {
                name: "age decrypt"@,
                program: "age"@,
                args: seq!["-d"@, "-i"@, private_key@, input_path@],
            },
            StageView { name: "zstd decode"@, program: "zstd"@, args: seq!["-d"@] },
            StageView {
                name: "btrfs receive"@,
                program: "btrfs"@,
                args: seq!["receive"@, snapshot_dir@],
            },
        ],
{
    let mut decrypt: Vec<String> = Vec::new();
    push_arg(&mut decrypt, "-d");
    push_arg(&mut decrypt, "-i");
    push_arg(&mut decrypt, private_key);
    push_arg(&mut decrypt, input_path);
    assert(decrypt@.map_values(|x: String| x@) =~= seq!["-d"@, "-i"@, private_key@, input_path@]);
    let mut decompress: Vec<String> = Vec::new();
    push_arg(&mut decompress, "-d");
    assert(decompress@.map_values(|x: String| x@) =~= seq!["-d"@]);
    let mut receive: Vec<String> = Vec::new();
    push_arg(&mut receive, "receive");
    push_arg(&mut receive, snapshot_dir);
    assert(receive@.map_values(|x: String| x@) =~= seq!["receive"@, snapshot_dir@]);
    let r = vec![
        stage("age decrypt", "age", decrypt),
        stage("zstd decode", "zstd", decompress),
        stage("btrfs receive", "btrfs", receive),
    ];
    assert(stages_view(r@) =~= seq![r@[0]@, r@[1]@, r@[2]@]);
    r
}

/// The position of the first stage that did not succeed.
pub open spec fn first_failure(succeeded: Seq<bool>) -> int {
    choose|i: int| 0 <= i < succeeded.len() && !succeeded[i] && forall|j: int| 0 <= j < i ==> #[trigger] succeeded[j]
}

/// The result of a pipeline whose stages exited as `succeeded` says:
/// success when every stage succeeded, otherwise an error naming the first
/// stage, in pipeline order, that did not.
pub open spec fn pipeline_result(stages: Seq<StageView>, succeeded: Seq<bool>) -> Result<(), ErrorView> {
    if forall|j: int| 0 <= j < succeeded.len() ==> #[trigger] succeeded[j] {
        Ok(())
    } else {
        Err(ErrorView::PipelineStage(stages[first_failure(succeeded)].name))
    }
}

/// Aggregates the exit statuses of a pipeline's stages; see
/// `pipeline_result`.
pub fn pipeline_outcome(stages: &Vec<Stage>, succeeded: &Vec<bool>) -> (r: Result<(), BackupError>)
    requires
        stages@.len() == succeeded@.len(),
    ensures
        match r {
            Ok(()) => pipeline_result(stages_view(stages@), succeeded@) == Ok::<(), ErrorView>(()),
            Err(e) => pipeline_result(stages_view(stages@), succeeded@) == Err::<(), _>(e@),
        },
{
    let mut k: usize = 0;
    while k < succeeded.len()
        invariant
            stages@.len() == succeeded@.len(),
            k <= succeeded@.len(),
            forall|j: int| 0 <= j < k ==> #[trigger] succeeded@[j],
        decreases succeeded@.len() - k,
    {
        if !succeeded[k] {
            proof {
                let s = succeeded@;
                assert(0 <= k < s.len() && !s[k as int] && forall|j: int| 0 <= j < k ==> #[trigger] s[j]);
                let w = first_failure(s);
                if w < k {
                    assert(s[w]);
                } else if w > k {
                    assert(s[k as int]);
                }
            }
            return Err(BackupError::PipelineStage { stage: stages[k].name.clone() });
        }
        k += 1;
    }
    Ok(())
}

/// What the runner of a pipeline does next.
#[derive(Debug, Clone, Copy, PartialEq, Eq, Structural)]
pub enum PipelineStep {
    /// Start this stage, its input wired to the previous stage's output.
    Spawn(usize),
    /// Wait for this stage to exit.
    Wait(usize),
    /// Every stage has exited.
    Finished,
}

/// The progress of one pipeline run: how many stages are started and which
/// have exited, successfully or not.
pub struct PipelineRun {
    stages: usize,
    spawned: usize,
    exits: Vec<bool>,
}

impl PipelineRun {
    /// The number of stages.
    pub closed spec fn stage_count(&self) -> nat {
        self.stages as nat
    }

    /// How many stages have been started.
    pub closed spec fn started(&self) -> nat {
        self.spawned as nat
    }

    /// The exit results so far, in stage order.
    pub closed spec fn exit_results(&self) -> Seq<bool> {
        self.exits@
    }

    /// No stage is waited on before every stage is started.
    pub open spec fn wf(&self) -> bool {
        &&& self.started() <= self.stage_count()
        &&& self.exit_results().len() <= self.stage_count()
        &&& self.exit_results().len() > 0 ==> self.started() == self.stage_count()
    }

    /// A run of `stages` stages, none started.
    pub fn new(stages: usize) -> (r: PipelineRun)
        ensures
            r.wf(),
            r.stage_count() == stages,
            r.started() == 0,
            r.exit_results() == Seq::<bool>::empty(),
    {
        PipelineRun { stages, spawned: 0, exits: Vec::new() }
    }

    /// The next step: start the stages one after the other, then wait on
    /// them in order, then finish.
    pub fn next_step(&self) -> (r: PipelineStep)
        requires
            self.wf(),
        ensures
            self.started() < self.stage_count() ==> r == PipelineStep::Spawn(self.started() as usize),
            self.started() == self.stage_count() && self.exit_results().len() < self.stage_count() ==> r
                == PipelineStep::Wait(self.exit_results().len() as usize),
            self.started() == self.stage_count() && self.exit_results().len() == self.stage_count() ==> r
                == PipelineStep::Finished,
    {
        if self.spawned < self.stages {
            PipelineStep::Spawn(self.spawned)
        } else if self.exits.len() < self.stages {
            PipelineStep::Wait(self.exits.len())
        } else {
            PipelineStep::Finished
        }
    }

    /// Records that the next stage was started.
    pub fn record_spawn(&mut self)
        requires
            old(self).wf(),
            old(self).started() < old(self).stage_count(),
        ensures
            final(self).wf(),
            final(self).stage_count() == old(self).stage_count(),
            final(self).started() == old(self).started() + 1,
            final(self).exit_results() == old(self).exit_results(),
    {
        self.spawned = self.spawned + 1;
    }

    /// Records how the stage waited on exited.
    pub fn record_exit(&mut self, success: bool)
        requires
            old(self).wf(),
            old(self).started() == old(self).stage_count(),
            old(self).exit_results().len() < old(self).stage_count(),
        ensures
            final(self).wf(),
            final(self).stage_count() == old(self).stage_count(),
            final(self).started() == old(self).started(),
            final(self).exit_results() == old(self).exit_results().push(success),
    {
        self.exits.push(success);
    }

    /// The result of a finished run of `stages`; see `pipeline_result`.
    pub fn result(&self, stages: &Vec<Stage>) -> (r: Result<(), BackupError>)
        requires
            self.wf(),
            self.exit_results().len() == self.stage_count(),
            stages@.len() == self.stage_count(),
        ensures
            match r {
                Ok(()) => pipeline_result(stages_view(stages@), self.exit_results()) == Ok::<(), ErrorView>(()),
                Err(e) => pipeline_result(stages_view(stages@), self.exit_results()) == Err::<(), _>(e@),
            },
    {
        pipeline_outcome(stages, &self.exits)
    }
}

} // verus!
