//! Settings of a host, and the places they determine.

use vstd::prelude::*;
use crate::artifact::ArtifactType;
use crate::text::{push_char, push_str};

verus! {

/// All settings.
#[derive(Debug, Clone)]
pub struct Config {
    pub paths: Paths,
    pub cloud: Option<Cloud>,
    pub crypto: Option<Crypto>,
    pub remote: Option<Remote>,
}

/// Where the data lives.
#[derive(Debug, Clone)]
pub struct Paths {
    /// The working tree that is snapshotted and restored.
    pub dataset: String,
    /// Where snapshots of the dataset are kept.
    pub snapshots: String,
    /// The storage root: artifacts, manifest, keys, restored snapshots.
    pub ls_root: String,
}

/// The remote object store.
#[derive(Debug, Clone)]
pub struct Cloud {
    pub endpoint: String,
    pub bucket: String,
    pub access_key: String,
    pub secret_key: String,
}

/// The encryption keys.
#[derive(Debug, Clone)]
pub struct Crypto {
    pub age_public_key: Option<String>,
    pub age_private_key_path: Option<String>,
}

/// The host that holds the storage root, seen from a workstation.
#[derive(Debug, Clone)]
pub struct Remote {
    pub ls_host: Option<String>,
    pub ls_user: Option<String>,
}

/// How to reach the remote object store.
#[derive(Debug, Clone)]
pub struct R2Config {
    pub endpoint: String,
    pub bucket: String,
    pub access_key: String,
    pub secret_key: String,
}

impl R2Config {
    /// The store settings of a configuration's cloud section.
    pub fn from_cloud(cloud: &Cloud) -> (r: R2Config)
        ensures
            r.endpoint == cloud.endpoint,
            r.bucket == cloud.bucket,
            r.access_key == cloud.access_key,
            r.secret_key == cloud.secret_key,
    {
        R2Config {
            endpoint: cloud.endpoint.clone(),
            bucket: cloud.bucket.clone(),
            access_key: cloud.access_key.clone(),
            secret_key: cloud.secret_key.clone(),
        }
    }
}

/// The key under which the manifest table is published.
pub const MANIFEST_KEY: &'static str = "manifests/snapshots_v2.tsv";

/// `dir/dev@label`: where the snapshot of `label` lives in `dir`.
pub fn snapshot_path(dir: &str, label: &str) -> (r: String)
    ensures
        r@ == dir@ + "/dev@"@ + label@,
{
    let mut out = String::new();
    push_str(&mut out, dir);
    push_str(&mut out, "/dev@");
    push_str(&mut out, label);
    assert(out@ =~= dir@ + "/dev@"@ + label@);
    out
}

/// `rel` placed under the directory `base`: a separator is added between
/// them unless `base` is empty or already ends with one.
pub open spec fn joined(base: Seq<char>, rel: Seq<char>) -> Seq<char> {
    if base.len() == 0 || base.last() == '/' {
        base + rel
    } else {
        base + seq!['/'] + rel
    }
}

/// The relative path `rel` under the directory `base`; see `joined`.
pub fn join_path(base: &str, rel: &str) -> (r: String)
    ensures
        r@ == joined(base@, rel@),
{
    let n = base.unicode_len();
    let mut out = String::new();
    push_str(&mut out, base);
    if n > 0 && base.get_char(n - 1) != '/' {
        push_char(&mut out, '/');
    }
    push_str(&mut out, rel);
    assert(out@ =~= joined(base@, rel@));
    out
}

/// Where the manifest table lives under the storage root.
pub fn manifest_path(ls_root: &str) -> (r: String)
    ensures
        r@ == joined(ls_root@, MANIFEST_KEY@),
{
    join_path(ls_root, MANIFEST_KEY)
}

/// Where restored snapshots live under the storage root.
pub fn restore_dir(ls_root: &str) -> (r: String)
    ensures
        r@ == ls_root@ + "/restore/snapshots"@,
{
    let mut out = String::new();
    push_str(&mut out, ls_root);
    push_str(&mut out, "/restore/snapshots");
    out
}

/// Where artifacts of a kind are kept under the storage root.
pub fn artifact_dir(ls_root: &str, kind: ArtifactType) -> (r: String)
    ensures
        r@ == joined(
            ls_root@,
            match kind {
                ArtifactType::Anchor => "artifacts/anchors"@,
                ArtifactType::Incremental => "artifacts/incr"@,
            },
        ),
{
    match kind {
        ArtifactType::Anchor => join_path(ls_root, "artifacts/anchors"),
        ArtifactType::Incremental => join_path(ls_root, "artifacts/incr"),
    }
}

} // verus!
