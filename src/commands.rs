//! The single external commands of the engine: snapshot management and the
//! sending side of a workstation request, and how the sending host is
//! chosen.

use vstd::prelude::*;
use crate::config::Config;
use crate::decimal::digit_value;
use crate::label::{is_digit, is_valid_label, valid_label};
use crate::pipeline::{Stage, StageView, opt_view, push_arg, send_args, stage};
use crate::text::{chars_of, matches_at, same_text, string_of, string_of_range};

verus! {

/// `btrfs subvolume snapshot -r source dest`: a read-only snapshot.
pub fn snapshot_readonly(source: &str, dest: &str) -> (r: Stage)
    ensures
        r@ == (StageView {
            name: "btrfs subvolume snapshot"@,
            program: "btrfs"@,
            args: seq!["subvolume"@, "snapshot"@, "-r"@, source@, dest@],
        }),
{
    let mut args: Vec<String> = Vec::new();
    push_arg(&mut args, "subvolume");
    push_arg(&mut args, "snapshot");
    push_arg(&mut args, "-r");
    push_arg(&mut args, source);
    push_arg(&mut args, dest);
    assert(args@.map_values(|x: String| x@) =~= seq!["subvolume"@, "snapshot"@, "-r"@, source@, dest@]);
    stage("btrfs subvolume snapshot", "btrfs", args)
}

/// `btrfs subvolume snapshot source dest`: a writable snapshot.
pub fn snapshot_writable(source: &str, dest: &str) -> (r: Stage)
    ensures
        r@ == (StageView {
            name: "btrfs subvolume snapshot"@,
            program: "btrfs"@,
            args: seq!["subvolume"@, "snapshot"@, source@, dest@],
        }),
{
    let mut args: Vec<String> = Vec::new();
    push_arg(&mut args, "subvolume");
    push_arg(&mut args, "snapshot");
    push_arg(&mut args, source);
    push_arg(&mut args, dest);
    assert(args@.map_values(|x: String| x@) =~= seq!["subvolume"@, "snapshot"@, source@, dest@]);
    stage("btrfs subvolume snapshot", "btrfs", args)
}

/// `btrfs subvolume delete path`.
pub fn subvolume_delete(path: &str) -> (r: Stage)
    ensures
        r@ == (StageView {
            name: "btrfs subvolume delete"@,
            program: "btrfs"@,
            args: seq!["subvolume"@, "delete"@, path@],
        }),
{
    let mut args: Vec<String> = Vec::new();
    push_arg(&mut args, "subvolume");
    push_arg(&mut args, "delete");
    push_arg(&mut args, path);
    assert(args@.map_values(|x: String| x@) =~= seq!["subvolume"@, "delete"@, path@]);
    stage("btrfs subvolume delete", "btrfs", args)
}

/// `btrfs subvolume show path`: succeeds exactly when `path` is a
/// subvolume.
pub fn subvolume_show(path: &str) -> (r: Stage)
    ensures
        r@ == (StageView {
            name: "btrfs subvolume show"@,
            program: "btrfs"@,
            args: seq!["subvolume"@, "show"@, path@],
        }),
{
    let mut args: Vec<String> = Vec::new();
    push_arg(&mut args, "subvolume");
    push_arg(&mut args, "show");
    push_arg(&mut args, path);
    assert(args@.map_values(|x: String| x@) =~= seq!["subvolume"@, "show"@, path@]);
    stage("btrfs subvolume show", "btrfs", args)
}

/// `age -R public_key -o output_path input_path`: encrypts a file to the
/// recipients listed in `public_key`.
pub fn encrypt_to_age(public_key: &str, input_path: &str, output_path: &str) -> (r: Stage)
    ensures
        r@ == (StageView {
            name: "age encrypt"@,
            program: "age"@,
            args: seq!["-R"@, public_key@, "-o"@, output_path@, input_path@],
        }),
{
    let mut args: Vec<String> = Vec::new();
    push_arg(&mut args, "-R");
    push_arg(&mut args, public_key);
    push_arg(&mut args, "-o");
    push_arg(&mut args, output_path);
    push_arg(&mut args, input_path);
    assert(args@.map_values(|x: String| x@) =~= seq!["-R"@, public_key@, "-o"@, output_path@, input_path@]);
    stage("age encrypt", "age", args)
}

/// `age -d -i private_key_path -o output_path input_path`: decrypts a file.
pub fn decrypt_from_age(private_key_path: &str, input_path: &str, output_path: &str) -> (r: Stage)
    ensures
        r@ == (StageView {
            name: "age decrypt"@,
            program: "age"@,
            args: seq!["-d"@, "-i"@, private_key_path@, "-o"@, output_path@, input_path@],
        }),
{
    let mut args: Vec<String> = Vec::new();
    push_arg(&mut args, "-d");
    push_arg(&mut args, "-i");
    push_arg(&mut args, private_key_path);
    push_arg(&mut args, "-o");
    push_arg(&mut args, output_path);
    push_arg(&mut args, input_path);
    assert(args@.map_values(|x: String| x@) =~= seq!["-d"@, "-i"@, private_key_path@, "-o"@, output_path@, input_path@]);
    stage("age decrypt", "age", args)
}

/// `btrfs send` of `snapshot` to standard output, incremental from
/// `parent` when given.
pub fn send_stage(snapshot: &str, parent: Option<&str>) -> (r: Stage)
    ensures
        r@ == (StageView {
            name: "btrfs send"@,
            program: "btrfs"@,
            args: send_args(snapshot@, opt_view(parent)),
        }),
{
    let mut args: Vec<String> = Vec::new();
    push_arg(&mut args, "send");
    match parent {
        Some(p) => {
            push_arg(&mut args, "-p");
            push_arg(&mut args, p);
        },
        None => {},
    }
    push_arg(&mut args, snapshot);
    assert(args@.map_values(|x: String| x@) =~= send_args(snapshot@, opt_view(parent)));
    stage("btrfs send", "btrfs", args)
}

/// `btrfs receive dir`, reading a stream from standard input.
pub fn receive_stage(dir: &str) -> (r: Stage)
    ensures
        r@ == (StageView {
            name: "btrfs receive"@,
            program: "btrfs"@,
            args: seq!["receive"@, dir@],
        }),
{
    let mut args: Vec<String> = Vec::new();
    push_arg(&mut args, "receive");
    push_arg(&mut args, dir);
    assert(args@.map_values(|x: String| x@) =~= seq!["receive"@, dir@]);
    stage("btrfs receive", "btrfs", args)
}

/// The arguments that ask the storage host to send `label`, incremental
/// from `parent` when given.
pub open spec fn ls_send_args(label: Seq<char>, parent: Option<Seq<char>>) -> Seq<Seq<char>> {
    match parent {
        Some(p) => seq!["ls"@, "send"@, label, p],
        None => seq!["ls"@, "send"@, label],
    }
}

fn push_ls_send(args: &mut Vec<String>, label: &str, parent: Option<&str>)
    ensures
        final(args)@.map_values(|x: String| x@) == old(args)@.map_values(|x: String| x@) + ls_send_args(
            label@,
            opt_view(parent),
        ),
{
    push_arg(args, "ls");
    push_arg(args, "send");
    push_arg(args, label);
    match parent {
        Some(p) => push_arg(args, p),
        None => {},
    }
    assert(final(args)@.map_values(|x: String| x@) =~= old(args)@.map_values(|x: String| x@)
        + ls_send_args(label@, opt_view(parent)));
}

/// The sending side of a request served on this host: this program, with
/// the configuration at `config_path`, sending `label`.
pub fn local_ls_send(config_path: &str, label: &str, parent: Option<&str>) -> (r: Stage)
    ensures
        r@ == (StageView {
            name: "ls send"@,
            program: "dev-backup"@,
            args: seq!["--config"@, config_path@] + ls_send_args(label@, opt_view(parent)),
        }),
{
    let mut args: Vec<String> = Vec::new();
    push_arg(&mut args, "--config");
    push_arg(&mut args, config_path);
    let ghost head = args@.map_values(|x: String| x@);
    assert(head =~= seq!["--config"@, config_path@]);
    push_ls_send(&mut args, label, parent);
    stage("ls send", "dev-backup", args)
}

/// The sending side of a request served by another host, over ssh as
/// `user@host`, with that host's configuration at its default place.
pub fn remote_ls_send(user: &str, host: &str, label: &str, parent: Option<&str>) -> (r: Stage)
    ensures
        r@ == (StageView {
            name: "ls send"@,
            program: "ssh"@,
            args: seq![
                user@ + "@"@ + host@,
                "dev-backup"@,
                "--config"@,
                "/etc/dev-backup/config.toml"@,
            ] + ls_send_args(label@, opt_view(parent)),
        }),
{
    let mut target = String::new();
    target.append(user);
    target.append("@");
    target.append(host);
    let mut args: Vec<String> = Vec::new();
    args.push(target);
    push_arg(&mut args, "dev-backup");
    push_arg(&mut args, "--config");
    push_arg(&mut args, "/etc/dev-backup/config.toml");
    let ghost head = args@.map_values(|x: String| x@);
    assert(head =~= seq![
        user@ + "@"@ + host@,
        "dev-backup"@,
        "--config"@,
        "/etc/dev-backup/config.toml"@,
    ]);
    push_ls_send(&mut args, label, parent);
    stage("ls send", "ssh", args)
}

/// What to do with the working tree before a snapshot replaces it.
#[derive(Debug, Clone, Copy, PartialEq, Eq, Structural)]
pub enum WorktreeAction {
    /// There is no working tree: nothing to clear.
    Nothing,
    /// The working tree is a subvolume: delete it.
    DeleteSubvolume,
    /// The working tree is a plain directory: move it aside as a backup.
    MoveAside,
}

/// The step that clears the working tree, given whether it exists and
/// whether it is a subvolume.
pub fn worktree_action(exists: bool, is_subvolume: bool) -> (r: WorktreeAction)
    ensures
        r == (if !exists {
            WorktreeAction::Nothing
        } else if is_subvolume {
            WorktreeAction::DeleteSubvolume
        } else {
            WorktreeAction::MoveAside
        }),
{
    if !exists {
        WorktreeAction::Nothing
    } else if is_subvolume {
        WorktreeAction::DeleteSubvolume
    } else {
        WorktreeAction::MoveAside
    }
}

/// Whether `host` names this machine.
pub fn is_local_host(host: &str) -> (r: bool)
    ensures
        r == (host@ == "localhost"@ || host@ == "127.0.0.1"@),
{
    same_text(host, "localhost") || same_text(host, "127.0.0.1")
}

fn copy_opt(o: &Option<String>) -> (r: Option<String>)
    ensures
        r == *o,
{
    match o {
        Some(s) => Some(s.clone()),
        None => None,
    }
}

/// The first of the given values that is present.
pub open spec fn first_of(a: Option<String>, b: Option<String>, fallback: Seq<char>) -> Seq<char> {
    match a {
        Some(x) => x@,
        None => match b {
            Some(y) => y@,
            None => fallback,
        },
    }
}

/// The host and user that serve a request: each taken from the request,
/// else from the configuration, else `localhost` for the host and
/// `default_user` for the user.
pub fn resolve_remote_target(
    cfg: &Config,
    ls_host: Option<String>,
    ls_user: Option<String>,
    default_user: String,
) -> (r: (String, String))
    ensures
        r.0@ == first_of(
            ls_host,
            match cfg.remote {
                Some(rem) => rem.ls_host,
                None => None,
            },
            "localhost"@,
        ),
        r.1@ == first_of(
            ls_user,
            match cfg.remote {
                Some(rem) => rem.ls_user,
                None => None,
            },
            default_user@,
        ),
{
    let (conf_host, conf_user) = match &cfg.remote {
        Some(rem) => (copy_opt(&rem.ls_host), copy_opt(&rem.ls_user)),
        None => (None, None),
    };
    let host = match ls_host {
        Some(h) => h,
        None => match conf_host {
            Some(h) => h,
            None => "localhost".to_owned(),
        },
    };
    let user = match ls_user {
        Some(u) => u,
        None => match conf_user {
            Some(u) => u,
            None => default_user,
        },
    };
    (host, user)
}

/// The label of a snapshot directory name `dev@<label>`, when the label is
/// valid and is not `exclude`.
pub open spec fn candidate_label(name: Seq<char>, exclude: Seq<char>) -> Option<Seq<char>> {
    if name.len() >= 4 && name.subrange(0, 4) == "dev@"@ && valid_label(name.subrange(4, name.len() as int))
        && name.subrange(4, name.len() as int) != exclude {
        Some(name.subrange(4, name.len() as int))
    } else {
        None
    }
}

/// The month a valid label names, as the number `YYYYMM`; labels order as
/// these numbers do.
pub open spec fn label_number(l: Seq<char>) -> int {
    (digit_value(l[0]) * 100000 + digit_value(l[1]) * 10000 + digit_value(l[2]) * 1000 + digit_value(
        l[3],
    ) * 100 + digit_value(l[5]) * 10 + digit_value(l[6])) as int
}

fn label_number_of(l: &Vec<char>) -> (r: u64)
    requires
        valid_label(l@),
    ensures
        r as int == label_number(l@),
{
    let d0 = (l[0] as u32 - '0' as u32) as u64;
    let d1 = (l[1] as u32 - '0' as u32) as u64;
    let d2 = (l[2] as u32 - '0' as u32) as u64;
    let d3 = (l[3] as u32 - '0' as u32) as u64;
    let d5 = (l[5] as u32 - '0' as u32) as u64;
    let d6 = (l[6] as u32 - '0' as u32) as u64;
    assert(is_digit(l@[0]) && is_digit(l@[1]) && is_digit(l@[2]) && is_digit(l@[3]) && is_digit(l@[5]) && is_digit(l@[6]));
    d0 * 100000 + d1 * 10000 + d2 * 1000 + d3 * 100 + d5 * 10 + d6
}

/// The latest label, by month, among the snapshot directory names
/// `dev@<label>` with a valid label other than `exclude`; `None` when there
/// is none.
pub fn latest_snapshot_label(names: &Vec<String>, exclude: &str) -> (r: Option<String>)
    ensures
        r is None <==> forall|i: int|
            0 <= i < names@.len() ==> candidate_label((#[trigger] names@[i])@, exclude@) is None,
        r matches Some(l) ==> (exists|i: int|
            0 <= i < names@.len() && candidate_label((#[trigger] names@[i])@, exclude@) == Some(l@))
            && forall|i: int|
            0 <= i < names@.len() && #[trigger] candidate_label(names@[i]@, exclude@) is Some ==> label_number(
                candidate_label(names@[i]@, exclude@)->0,
            ) <= label_number(l@),
{
    let prefix = chars_of("dev@");
    let mut best: Option<Vec<char>> = None;
    let mut best_number: u64 = 0;
    let mut i: usize = 0;
    while i < names.len()
        invariant
            prefix@ == "dev@"@,
            i <= names@.len(),
            best is None <==> forall|j: int|
                0 <= j < i ==> candidate_label((#[trigger] names@[j])@, exclude@) is None,
            best matches Some(b) ==> best_number as int == label_number(b@) && (exists|j: int|
                0 <= j < i && candidate_label((#[trigger] names@[j])@, exclude@) == Some(b@))
                && forall|j: int|
                0 <= j < i && #[trigger] candidate_label(names@[j]@, exclude@) is Some ==> label_number(
                    candidate_label(names@[j]@, exclude@)->0,
                ) <= label_number(b@),
        decreases names@.len() - i,
    {
        let cs = chars_of(names[i].as_str());
        proof {
            reveal_strlit("dev@");
        }
        if cs.len() >= 4 && matches_at(&cs, &prefix, 0) {
            let rest = string_of_range(&cs, 4, cs.len());
            if is_valid_label(rest.as_str()) && !same_text(rest.as_str(), exclude) {
                let rest_chars = chars_of(rest.as_str());
                assert(candidate_label(names@[i as int]@, exclude@) == Some(rest_chars@));
                let n = label_number_of(&rest_chars);
                let better = match &best {
                    None => true,
                    Some(_) => n > best_number,
                };
                if better {
                    best = Some(rest_chars);
                    best_number = n;
                }
            } else {
                assert(candidate_label(names@[i as int]@, exclude@) is None);
            }
        } else {
            assert(candidate_label(names@[i as int]@, exclude@) is None);
        }
        i += 1;
    }
    match best {
        None => None,
        Some(b) => Some(string_of(&b)),
    }
}

} // verus!
