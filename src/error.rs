//! The errors of the engine, and their mathematical view.

use vstd::prelude::*;
use crate::decimal::{decimal_of, push_decimal};

verus! {

/// Why an operation of the engine failed. Each variant carries the label,
/// name, row or stage it is about.
#[derive(Debug)]
pub enum BackupError {
    /// A label that is not of the form `YYYY-MM`.
    InvalidLabel { label: String },
    /// A filename that matches neither artifact grammar.
    InvalidArtifactName { name: String },
    /// The manifest table could not be split into rows of equal length.
    MalformedManifest,
    /// A manifest row (counted from the first data row) that does not decode.
    MalformedRow { row: usize },
    /// The manifest holds no record.
    EmptyManifest,
    /// No record of the manifest has this label.
    LabelNotFound { label: String },
    /// An incremental record without a parent label.
    MissingParent { label: String },
    /// A walk along parent labels that comes back to where it has been.
    ParentCycle { label: String },
    /// A record needed for a pull that was never uploaded.
    MissingObjectKey { label: String },
    /// A record to upload that has no local path.
    MissingLocalPath { label: String },
    /// A non-empty manifest without any anchor record.
    NoAnchor,
    /// A timestamp that is not RFC 3339.
    InvalidTimestamp { ts: String },
    /// A stage of an external-process pipeline that exited unsuccessfully.
    PipelineStage { stage: String },
}

/// The view of a `BackupError`: the same variants over character sequences.
pub enum ErrorView {
    InvalidLabel(Seq<char>),
    InvalidArtifactName(Seq<char>),
    MalformedManifest,
    MalformedRow(nat),
    EmptyManifest,
    LabelNotFound(Seq<char>),
    MissingParent(Seq<char>),
    ParentCycle(Seq<char>),
    MissingObjectKey(Seq<char>),
    MissingLocalPath(Seq<char>),
    NoAnchor,
    InvalidTimestamp(Seq<char>),
    PipelineStage(Seq<char>),
}

impl View for BackupError {
    type V = ErrorView;

    open spec fn view(&self) -> ErrorView {
        match self {
            BackupError::InvalidLabel { label } => ErrorView::InvalidLabel(label@),
            BackupError::InvalidArtifactName { name } => ErrorView::InvalidArtifactName(name@),
            BackupError::MalformedManifest => ErrorView::MalformedManifest,
            BackupError::MalformedRow { row } => ErrorView::MalformedRow(*row as nat),
            BackupError::EmptyManifest => ErrorView::EmptyManifest,
            BackupError::LabelNotFound { label } => ErrorView::LabelNotFound(label@),
            BackupError::MissingParent { label } => ErrorView::MissingParent(label@),
            BackupError::ParentCycle { label } => ErrorView::ParentCycle(label@),
            BackupError::MissingObjectKey { label } => ErrorView::MissingObjectKey(label@),
            BackupError::MissingLocalPath { label } => ErrorView::MissingLocalPath(label@),
            BackupError::NoAnchor => ErrorView::NoAnchor,
            BackupError::InvalidTimestamp { ts } => ErrorView::InvalidTimestamp(ts@),
            BackupError::PipelineStage { stage } => ErrorView::PipelineStage(stage@),
        }
    }
}

/// The one-line description of an error: a fixed phrase, followed by the
/// label, name, row or timestamp involved, or preceded by the stage.
pub open spec fn message_of(e: ErrorView) -> Seq<char> {
    match e {
        ErrorView::InvalidLabel(label) => "label must be YYYY-MM: "@ + label,
        ErrorView::InvalidArtifactName(name) => "invalid artifact name: "@ + name,
        ErrorView::MalformedManifest => "manifest table is malformed"@,
        ErrorView::MalformedRow(row) => "failed to parse manifest data row "@ + decimal_of(row),
        ErrorView::EmptyManifest => "manifest is empty"@,
        ErrorView::LabelNotFound(label) => "label not found in manifest: "@ + label,
        ErrorView::MissingParent(label) => "incremental record missing parent for "@ + label,
        ErrorView::ParentCycle(label) => "parent labels form a cycle at "@ + label,
        ErrorView::MissingObjectKey(label) => "missing object_key for "@ + label,
        ErrorView::MissingLocalPath(label) => "missing local_path for "@ + label,
        ErrorView::NoAnchor => "no anchor found in manifest"@,
        ErrorView::InvalidTimestamp(ts) => "invalid timestamp: "@ + ts,
        ErrorView::PipelineStage(stage) => stage + " failed"@,
    }
}

impl BackupError {
    /// A one-line description naming the label, name, row or stage
    /// involved; see `message_of`.
    pub fn message(&self) -> (r: String)
        ensures
            r@ == message_of(self@),
    {
        let mut out = String::new();
        match self {
            BackupError::InvalidLabel { label } => {
                out.append("label must be YYYY-MM: ");
                out.append(label.as_str());
            },
            BackupError::InvalidArtifactName { name } => {
                out.append("invalid artifact name: ");
                out.append(name.as_str());
            },
            BackupError::MalformedManifest => {
                out.append("manifest table is malformed");
            },
            BackupError::MalformedRow { row } => {
                out.append("failed to parse manifest data row ");
                assert(*row as u64 as nat == *row as nat);
                push_decimal(&mut out, *row as u64);
            },
            BackupError::EmptyManifest => {
                out.append("manifest is empty");
            },
            BackupError::LabelNotFound { label } => {
                out.append("label not found in manifest: ");
                out.append(label.as_str());
            },
            BackupError::MissingParent { label } => {
                out.append("incremental record missing parent for ");
                out.append(label.as_str());
            },
            BackupError::ParentCycle { label } => {
                out.append("parent labels form a cycle at ");
                out.append(label.as_str());
            },
            BackupError::MissingObjectKey { label } => {
                out.append("missing object_key for ");
                out.append(label.as_str());
            },
            BackupError::MissingLocalPath { label } => {
                out.append("missing local_path for ");
                out.append(label.as_str());
            },
            BackupError::NoAnchor => {
                out.append("no anchor found in manifest");
            },
            BackupError::InvalidTimestamp { ts } => {
                out.append("invalid timestamp: ");
                out.append(ts.as_str());
            },
            BackupError::PipelineStage { stage } => {
                out.append(stage.as_str());
                out.append(" failed");
            },
        }
        assert(out@ =~= message_of(self@));
        out
    }
}

/// The view of a result whose error is a `BackupError`.
pub open spec fn outcome<T: View>(r: Result<T, BackupError>) -> Result<T::V, ErrorView> {
    match r {
        Ok(v) => Ok(v@),
        Err(e) => Err(e@),
    }
}

} // verus!
