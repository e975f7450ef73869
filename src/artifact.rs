//! Artifact naming: the filename of an artifact encodes its label, its kind
//! and, for an incremental, its parent label.
//!
//! Anchors are named `dev@<label>.full.send.zst.age`, incrementals
//! `dev@<label>.incr.from_<parent>.send.zst.age`, where both labels are
//! valid `YYYY-MM` labels.

use vstd::prelude::*;
use crate::label::{is_valid_label, valid_label};
use crate::text::{chars_of, matches_at, push_str, string_of_range};

verus! {

/// The two kinds of artifact.
#[derive(Debug, Clone, Copy, PartialEq, Eq, Structural)]
pub enum ArtifactType {
    /// A full, self-contained artifact.
    Anchor,
    /// The delta since a parent label.
    Incremental,
}

/// What a filename says about its artifact.
#[derive(Debug)]
pub struct ArtifactInfo {
    pub label: String,
    pub artifact_type: ArtifactType,
    pub parent: Option<String>,
    pub filename: String,
}

/// The view of an `ArtifactInfo`.
pub struct ArtifactView {
    pub label: Seq<char>,
    pub artifact_type: ArtifactType,
    pub parent: Option<Seq<char>>,
    pub filename: Seq<char>,
}

impl View for ArtifactInfo {
    type V = ArtifactView;

    open spec fn view(&self) -> ArtifactView {
        ArtifactView {
            label: self.label@,
            artifact_type: self.artifact_type,
            parent: match self.parent {
                Some(p) => Some(p@),
                None => None,
            },
            filename: self.filename@,
        }
    }
}

/// `dev@`
pub open spec fn name_prefix() -> Seq<char> {
    seq!['d', 'e', 'v', '@']
}

/// `.full.send.zst.age`
pub open spec fn full_suffix() -> Seq<char> {
    seq!['.', 'f', 'u', 'l', 'l', '.', 's', 'e', 'n', 'd', '.', 'z', 's', 't', '.', 'a', 'g', 'e']
}

/// `.incr.from_`
pub open spec fn incr_infix() -> Seq<char> {
    seq!['.', 'i', 'n', 'c', 'r', '.', 'f', 'r', 'o', 'm', '_']
}

/// `.send.zst.age`
pub open spec fn send_suffix() -> Seq<char> {
    seq!['.', 's', 'e', 'n', 'd', '.', 'z', 's', 't', '.', 'a', 'g', 'e']
}

/// The filename of the anchor artifact of `label`.
pub open spec fn anchor_name(label: Seq<char>) -> Seq<char> {
    name_prefix() + label + full_suffix()
}

/// The filename of the incremental artifact of `label` from `parent`.
pub open spec fn incremental_name(label: Seq<char>, parent: Seq<char>) -> Seq<char> {
    name_prefix() + label + incr_infix() + parent + send_suffix()
}

/// The filename of an artifact: incremental when a parent is given.
pub open spec fn artifact_name(label: Seq<char>, parent: Option<Seq<char>>) -> Seq<char> {
    match parent {
        Some(p) => incremental_name(label, p),
        None => anchor_name(label),
    }
}

/// Whether `f` is the name of an anchor for some valid label.
pub open spec fn is_anchor_name(f: Seq<char>) -> bool {
    exists|l: Seq<char>| valid_label(l) && f == anchor_name(l)
}

/// Whether `f` is the name of an incremental for some valid labels.
pub open spec fn is_incremental_name(f: Seq<char>) -> bool {
    exists|l: Seq<char>, p: Seq<char>|
        valid_label(l) && valid_label(p) && f == incremental_name(l, p)
}

/// What a filename decodes to: the label and parent read at their fixed
/// positions, when the fixed parts of one of the two grammars are there
/// and the labels are valid.
pub open spec fn parse_name(f: Seq<char>) -> Option<ArtifactView> {
    if f.len() == 29 && f.subrange(0, 4) == name_prefix() && f.subrange(11, 29)
        == full_suffix() && valid_label(f.subrange(4, 11)) {
        Some(
            ArtifactView {
                label: f.subrange(4, 11),
                artifact_type: ArtifactType::Anchor,
                parent: None,
                filename: f,
            },
        )
    } else if f.len() == 42 && f.subrange(0, 4) == name_prefix() && f.subrange(11, 22)
        == incr_infix() && f.subrange(29, 42) == send_suffix() && valid_label(f.subrange(4, 11))
        && valid_label(f.subrange(22, 29)) {
        Some(
            ArtifactView {
                label: f.subrange(4, 11),
                artifact_type: ArtifactType::Incremental,
                parent: Some(f.subrange(22, 29)),
                filename: f,
            },
        )
    } else {
        None
    }
}

/// Decodes an artifact filename. Any name outside the two grammars gives
/// `None`; nothing is guessed.
pub fn parse_artifact_filename(filename: &str) -> (r: Option<ArtifactInfo>)
    ensures
        match r {
            Some(info) => parse_name(filename@) == Some(info@),
            None => parse_name(filename@) is None,
        },
{
    let cs = chars_of(filename);
    let prefix = chars_of("dev@");
    let full = chars_of(".full.send.zst.age");
    let infix = chars_of(".incr.from_");
    let send = chars_of(".send.zst.age");
    proof {
        reveal_strlit("dev@");
        reveal_strlit(".full.send.zst.age");
        reveal_strlit(".incr.from_");
        reveal_strlit(".send.zst.age");
        assert(prefix@ =~= name_prefix());
        assert(full@ =~= full_suffix());
        assert(infix@ =~= incr_infix());
        assert(send@ =~= send_suffix());
    }
    if cs.len() == 29 && matches_at(&cs, &prefix, 0) && matches_at(&cs, &full, 11) {
        let label = string_of_range(&cs, 4, 11);
        if is_valid_label(label.as_str()) {
            return Some(
                ArtifactInfo {
                    label,
                    artifact_type: ArtifactType::Anchor,
                    parent: None,
                    filename: filename.to_owned(),
                },
            );
        }
        return None;
    }
    if cs.len() == 42 && matches_at(&cs, &prefix, 0) && matches_at(&cs, &infix, 11)
        && matches_at(&cs, &send, 29) {
        let label = string_of_range(&cs, 4, 11);
        let parent = string_of_range(&cs, 22, 29);
        if is_valid_label(label.as_str()) && is_valid_label(parent.as_str()) {
            return Some(
                ArtifactInfo {
                    label,
                    artifact_type: ArtifactType::Incremental,
                    parent: Some(parent),
                    filename: filename.to_owned(),
                },
            );
        }
    }
    None
}

/// The filename for the artifact of `label`: an anchor without a parent,
/// an incremental from `parent` otherwise.
pub fn build_artifact_filename(label: &str, parent: Option<&str>) -> (r: String)
    ensures
        r@ == artifact_name(
            label@,
            match parent {
                Some(p) => Some(p@),
                None => None,
            },
        ),
{
    proof {
        reveal_strlit("dev@");
        reveal_strlit(".full.send.zst.age");
        reveal_strlit(".incr.from_");
        reveal_strlit(".send.zst.age");
    }
    let mut out = String::new();
    push_str(&mut out, "dev@");
    push_str(&mut out, label);
    match parent {
        Some(p) => {
            push_str(&mut out, ".incr.from_");
            push_str(&mut out, p);
            push_str(&mut out, ".send.zst.age");
        },
        None => {
            push_str(&mut out, ".full.send.zst.age");
        },
    }
    proof {
        assert("dev@"@ =~= name_prefix());
        assert(".full.send.zst.age"@ =~= full_suffix());
        assert(".incr.from_"@ =~= incr_infix());
        assert(".send.zst.age"@ =~= send_suffix());
        match parent {
            Some(p) => {
                assert(out@ =~= incremental_name(label@, p@));
            },
            None => {
                assert(out@ =~= anchor_name(label@));
            },
        }
    }
    out
}

/// Building a name from valid labels and decoding it gives back the label,
/// the kind and the parent.
pub proof fn lemma_name_round_trip(label: Seq<char>, parent: Option<Seq<char>>)
    requires
        valid_label(label),
        parent matches Some(p) ==> valid_label(p),
    ensures
        parse_name(artifact_name(label, parent)) == Some(
            ArtifactView {
                label,
                artifact_type: if parent is Some {
                    ArtifactType::Incremental
                } else {
                    ArtifactType::Anchor
                },
                parent,
                filename: artifact_name(label, parent),
            },
        ),
{
    let f = artifact_name(label, parent);
    match parent {
        Some(p) => {
            assert(f.subrange(0, 4) =~= name_prefix());
            assert(f.subrange(4, 11) =~= label);
            assert(f.subrange(11, 22) =~= incr_infix());
            assert(f.subrange(22, 29) =~= p);
            assert(f.subrange(29, 42) =~= send_suffix());
        },
        None => {
            assert(f.subrange(0, 4) =~= name_prefix());
            assert(f.subrange(4, 11) =~= label);
            assert(f.subrange(11, 29) =~= full_suffix());
        },
    }
}

/// A name that is neither an anchor name nor an incremental name of valid
/// labels decodes to nothing; and a name that decodes is one of the two.
pub proof fn lemma_only_grammar_names_parse(f: Seq<char>)
    ensures
        parse_name(f) is Some <==> (is_anchor_name(f) || is_incremental_name(f)),
{
    if parse_name(f) is Some {
        if f.len() == 29 && f.subrange(0, 4) == name_prefix() && f.subrange(11, 29)
            == full_suffix() && valid_label(f.subrange(4, 11)) {
            assert(f =~= anchor_name(f.subrange(4, 11)));
        } else {
            assert(f =~= incremental_name(f.subrange(4, 11), f.subrange(22, 29)));
        }
    }
    if is_anchor_name(f) {
        let l = choose|l: Seq<char>| valid_label(l) && f == anchor_name(l);
        lemma_name_round_trip(l, None);
    }
    if is_incremental_name(f) {
        let (l, p) = choose|l: Seq<char>, p: Seq<char>|
            valid_label(l) && valid_label(p) && f == incremental_name(l, p);
        lemma_name_round_trip(l, Some(p));
    }
}

} // verus!
