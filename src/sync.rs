//! Reconciliation with remote storage: which records to upload and under
//! which keys, and which objects a pull must fetch.

use vstd::prelude::*;
use crate::chain::{plan_restore, restore_plan};
use crate::error::{BackupError, ErrorView, outcome};
use crate::manifest::{ManifestRecord, RecordView, records_view};
use crate::text::{chars_in_range, chars_of, same_chars, string_of_range};

verus! {

/// `s` without its leading separators.
pub open spec fn trim_leading_separators(s: Seq<char>) -> Seq<char>
    decreases s.len(),
{
    if s.len() > 0 && s[0] == '/' {
        trim_leading_separators(s.drop_first())
    } else {
        s
    }
}

/// The position of the first separator in `s`, or its length if none.
pub open spec fn first_separator(s: Seq<char>) -> nat
    decreases s.len(),
{
    if s.len() == 0 || s[0] == '/' {
        0
    } else {
        1 + first_separator(s.drop_first())
    }
}

/// Whether a piece between separators names a path component: it is not
/// empty and not `.`.
pub open spec fn is_component(piece: Seq<char>) -> bool {
    piece.len() > 0 && piece != seq!['.']
}

/// The components of a path: the pieces between separators, without empty
/// pieces and `.`.
pub open spec fn components(s: Seq<char>) -> Seq<Seq<char>>
    decreases s.len(),
{
    if s.len() == 0 {
        Seq::empty()
    } else {
        let k = first_separator(s) as int;
        let rest = if k < s.len() {
            components(s.subrange(k + 1, s.len() as int))
        } else {
            Seq::empty()
        };
        if is_component(s.subrange(0, k)) {
            seq![s.subrange(0, k)] + rest
        } else {
            rest
        }
    }
}

/// Whether a path starts at the root directory.
pub open spec fn is_absolute(s: Seq<char>) -> bool {
    s.len() > 0 && s[0] == '/'
}

/// Whether `path` lies under `root`: both absolute or both relative, and
/// the components of `root` begin the components of `path`.
pub open spec fn under_root(path: Seq<char>, root: Seq<char>) -> bool {
    let p = components(path);
    let q = components(root);
    &&& is_absolute(path) == is_absolute(root)
    &&& q.len() <= p.len()
    &&& p.subrange(0, q.len() as int) == q
}

/// The text of `s` that follows its first `n` components, exactly as it
/// is written there (starting at the separator after the `n`-th one).
pub open spec fn after_components(s: Seq<char>, n: nat) -> Seq<char>
    decreases s.len(),
{
    if n == 0 || s.len() == 0 {
        s
    } else {
        let k = first_separator(s) as int;
        let rest = if k < s.len() {
            s.subrange(k + 1, s.len() as int)
        } else {
            Seq::empty()
        };
        if is_component(s.subrange(0, k)) {
            if n == 1 {
                s.subrange(k, s.len() as int)
            } else {
                after_components(rest, (n - 1) as nat)
            }
        } else {
            after_components(rest, n)
        }
    }
}

/// Whether `s` starts with a `.` piece: `.` alone or followed by a separator.
pub open spec fn starts_with_dot_piece(s: Seq<char>) -> bool {
    s.len() > 0 && s[0] == '.' && (s.len() == 1 || s[1] == '/')
}

/// Whether `s` ends with a `.` piece: `.` alone or preceded by a separator.
pub open spec fn ends_with_dot_piece(s: Seq<char>) -> bool {
    s.len() > 0 && s.last() == '.' && (s.len() == 1 || s[s.len() - 2] == '/')
}

/// `s` without the separators and `.` pieces at its start.
pub open spec fn trim_front(s: Seq<char>) -> Seq<char>
    decreases s.len(),
{
    if s.len() > 0 && (s[0] == '/' || starts_with_dot_piece(s)) {
        trim_front(s.drop_first())
    } else {
        s
    }
}

/// `s` without the separators and `.` pieces at its end.
pub open spec fn trim_back(s: Seq<char>) -> Seq<char>
    decreases s.len(),
{
    if s.len() > 0 && (s.last() == '/' || ends_with_dot_piece(s)) {
        trim_back(s.drop_last())
    } else {
        s
    }
}

/// The object key of an artifact. When the path lies under the storage
/// root, it is the text of the path after the root's components, as
/// written, without the separators and `.` pieces at either end; otherwise
/// it is the whole path without its leading separators.
pub open spec fn object_key_for(root: Seq<char>, path: Seq<char>) -> Seq<char> {
    if under_root(path, root) {
        trim_back(trim_front(after_components(path, components(root).len())))
    } else {
        trim_leading_separators(path)
    }
}

proof fn lemma_first_separator(t: Seq<char>, k: int)
    requires
        0 <= k <= t.len(),
        forall|m: int| 0 <= m < k ==> t[m] != '/',
        k == t.len() || t[k] == '/',
    ensures
        first_separator(t) == k,
    decreases k,
{
    if k > 0 {
        lemma_first_separator(t.drop_first(), k - 1);
    }
}

/// The view of a list of character vectors.
pub open spec fn pieces_view(v: Seq<Vec<char>>) -> Seq<Seq<char>> {
    v.map_values(|x: Vec<char>| x@)
}

/// The components of the path `cs` (see `components`), each with the
/// position just after it.
pub fn components_of(cs: &Vec<char>) -> (r: (Vec<Vec<char>>, Vec<usize>))
    ensures
        pieces_view(r.0@) == components(cs@),
        r.1@.len() == r.0@.len(),
        forall|m: int|
            1 <= m <= r.0@.len() ==> #[trigger] r.1@[m - 1] <= cs@.len() && after_components(cs@, m as nat)
                == cs@.subrange(r.1@[m - 1] as int, cs@.len() as int),
{
    let n = cs.len();
    let mut out: Vec<Vec<char>> = Vec::new();
    let mut ends: Vec<usize> = Vec::new();
    let mut start: usize = 0;
    assert(cs@.subrange(0, n as int) =~= cs@);
    assert(pieces_view(out@) =~= Seq::<Seq<char>>::empty());
    while start < n
        invariant
            n == cs@.len(),
            start <= n,
            components(cs@) == pieces_view(out@) + components(cs@.subrange(start as int, n as int)),
            ends@.len() == out@.len(),
            forall|m: int|
                1 <= m <= out@.len() ==> #[trigger] ends@[m - 1] <= n && after_components(cs@, m as nat)
                    == cs@.subrange(ends@[m - 1] as int, n as int),
            forall|m: nat|
                m > out@.len() ==> #[trigger] after_components(cs@, m) == after_components(
                    cs@.subrange(start as int, n as int),
                    (m - out@.len()) as nat,
                ),
        decreases n - start,
    {
        let ghost t = cs@.subrange(start as int, n as int);
        let ghost s0 = start;
        let ghost len0 = out@.len();
        let mut j: usize = start;
        while j < n && cs[j] != '/'
            invariant
                start <= j <= n,
                n == cs@.len(),
                forall|m: int| start <= m < j ==> cs@[m] != '/',
            decreases n - j,
        {
            j += 1;
        }
        proof {
            lemma_first_separator(t, (j - start) as int);
            assert(t.subrange(0, (j - start) as int) =~= cs@.subrange(start as int, j as int));
            assert(t.subrange((j - start) as int, t.len() as int) =~= cs@.subrange(j as int, n as int));
            if j < n {
                assert(t.subrange((j - start + 1) as int, t.len() as int) =~= cs@.subrange(
                    j + 1,
                    n as int,
                ));
            }
        }
        let piece = chars_in_range(cs, start, j);
        let keep = piece.len() > 0 && !(piece.len() == 1 && piece[0] == '.');
        assert(keep == is_component(piece@)) by {
            if piece@.len() == 1 && piece@[0] == '.' {
                assert(piece@ =~= seq!['.']);
            }
        }
        let ghost before = pieces_view(out@);
        let ghost ends_before = ends@;
        if keep {
            out.push(piece);
            ends.push(j);
            assert(pieces_view(out@) =~= before.push(cs@.subrange(start as int, j as int)));
        }
        if j < n {
            start = j + 1;
        } else {
            start = n;
        }
        proof {
            let head = cs@.subrange(s0 as int, j as int);
            let piece_seq: Seq<Seq<char>> = if keep {
                seq![head]
            } else {
                Seq::empty()
            };
            let rest = cs@.subrange(start as int, n as int);
            assert(pieces_view(out@) == before + piece_seq);
            assert(cs@.subrange(n as int, n as int).len() == 0);
            assert(components(cs@.subrange(n as int, n as int)) == Seq::<Seq<char>>::empty());
            assert(components(t) == piece_seq + components(rest));
            assert(before + components(t) =~= pieces_view(out@) + components(rest));
            assert forall|m: int|
                1 <= m <= out@.len() implies #[trigger] ends@[m - 1] <= n && after_components(
                cs@,
                m as nat,
            ) == cs@.subrange(ends@[m - 1] as int, n as int) by {
                if m <= len0 {
                    assert(ends@[m - 1] == ends_before[m - 1]);
                } else {
                    assert(after_components(cs@, m as nat) == after_components(t, 1));
                }
            }
            assert forall|m: nat| m > out@.len() implies #[trigger] after_components(cs@, m)
                == after_components(rest, (m - out@.len()) as nat) by {
                let mp = (m - len0) as nat;
                assert(after_components(cs@, m) == after_components(t, mp));
                let rt = if j < n {
                    cs@.subrange(j + 1, n as int)
                } else {
                    Seq::<char>::empty()
                };
                assert(rt =~= rest);
                if keep {
                    assert(mp >= 2);
                    assert(after_components(t, mp) == after_components(rt, (mp - 1) as nat));
                } else {
                    assert(after_components(t, mp) == after_components(rt, mp));
                }
            }
        }
    }
    (out, ends)
}

/// The object key of the artifact at `local_path` under `ls_root`; see
/// `object_key_for`.
pub fn build_object_key(ls_root: &str, local_path: &str) -> (r: String)
    ensures
        r@ == object_key_for(ls_root@, local_path@),
{
    let root = chars_of(ls_root);
    let path = chars_of(local_path);
    let (rc, _) = components_of(&root);
    let (pc, pends) = components_of(&path);
    let ghost p = pieces_view(pc@);
    let ghost q = pieces_view(rc@);
    let root_abs = root.len() > 0 && root[0] == '/';
    let path_abs = path.len() > 0 && path[0] == '/';
    let mut under = root_abs == path_abs && rc.len() <= pc.len();
    if under {
        let mut k: usize = 0;
        while k < rc.len()
            invariant
                rc@.len() <= pc@.len(),
                p == pieces_view(pc@),
                q == pieces_view(rc@),
                k <= rc@.len(),
                under <==> forall|m: int| 0 <= m < k ==> p[m] == q[m],
            decreases rc@.len() - k,
        {
            if !same_chars(&pc[k], &rc[k]) {
                assert(p[k as int] == pc@[k as int]@ && q[k as int] == rc@[k as int]@);
                under = false;
            }
            k += 1;
        }
        if under {
            assert(p.subrange(0, q.len() as int) =~= q);
        } else {
            assert(p.subrange(0, q.len() as int) != q) by {
                let m = choose|m: int| 0 <= m < k && p[m] != q[m];
                assert(p.subrange(0, q.len() as int)[m] != q[m]);
            }
        }
    }
    assert(under == under_root(path@, root@));
    let n = path.len();
    if !under {
        let mut start: usize = 0;
        assert(path@.subrange(0, n as int) =~= path@);
        while start < n && path[start] == '/'
            invariant
                n == path@.len(),
                start <= n,
                trim_leading_separators(path@) == trim_leading_separators(
                    path@.subrange(start as int, n as int),
                ),
            decreases n - start,
        {
            assert(path@.subrange(start as int, n as int).drop_first() =~= path@.subrange(
                start + 1,
                n as int,
            ));
            start += 1;
        }
        return string_of_range(&path, start, n);
    }
    let nr = rc.len();
    let pos: usize = if nr == 0 {
        0
    } else {
        pends[nr - 1]
    };
    let ghost rest = after_components(path@, nr as nat);
    assert(rest == path@.subrange(pos as int, n as int)) by {
        if nr == 0 {
            assert(path@.subrange(0, n as int) =~= path@);
        }
    }
    let mut i: usize = pos;
    while i < n && (path[i] == '/' || (path[i] == '.' && (i + 1 == n || path[i + 1] == '/')))
        invariant
            n == path@.len(),
            pos <= i <= n,
            trim_front(rest) == trim_front(path@.subrange(i as int, n as int)),
        decreases n - i,
    {
        let ghost t = path@.subrange(i as int, n as int);
        assert(t.drop_first() =~= path@.subrange(i + 1, n as int));
        assert(t[0] == path@[i as int]);
        assert(t.len() > 1 ==> t[1] == path@[i + 1]);
        i += 1;
    }
    let ghost front = path@.subrange(i as int, n as int);
    assert(trim_front(front) == front) by {
        if front.len() > 0 {
            assert(front[0] == path@[i as int]);
            assert(front.len() > 1 ==> front[1] == path@[i + 1]);
        }
    }
    let mut e: usize = n;
    assert(path@.subrange(i as int, e as int) == front);
    while e > i && (path[e - 1] == '/' || (path[e - 1] == '.' && (e - 1 == i || path[e - 2] == '/')))
        invariant
            n == path@.len(),
            i <= e <= n,
            trim_back(front) == trim_back(path@.subrange(i as int, e as int)),
        decreases e - i,
    {
        let ghost t = path@.subrange(i as int, e as int);
        assert(t.drop_last() =~= path@.subrange(i as int, e - 1));
        assert(t.last() == path@[e - 1]);
        assert(t.len() > 1 ==> t[t.len() - 2] == path@[e - 2]);
        e -= 1;
    }
    let ghost back = path@.subrange(i as int, e as int);
    assert(trim_back(back) == back) by {
        if back.len() > 0 {
            assert(back.last() == path@[e - 1]);
            assert(back.len() > 1 ==> back[back.len() - 2] == path@[e - 2]);
        }
    }
    string_of_range(&path, i, e)
}

/// One upload of a push: the record at `index`, the file at `path`, the key
/// to put it under.
#[derive(Debug)]
pub struct Upload {
    pub index: usize,
    pub key: String,
    pub path: String,
}

/// The uploads of a push over the first `n` records: one for each record
/// without an object key, in order; an error for the first such record
/// without a local path.
pub open spec fn push_plan_upto(records: Seq<RecordView>, root: Seq<char>, n: nat) -> Result<
    Seq<(int, Seq<char>)>,
    ErrorView,
>
    decreases n,
{
    if n == 0 || n > records.len() {
        Ok(Seq::empty())
    } else {
        match push_plan_upto(records, root, (n - 1) as nat) {
            Err(e) => Err(e),
            Ok(done) => {
                let r = records[n - 1];
                if r.object_key.len() != 0 {
                    Ok(done)
                } else if r.local_path.len() == 0 {
                    Err(ErrorView::MissingLocalPath(r.label))
                } else {
                    Ok(done.push((n - 1, object_key_for(root, r.local_path))))
                }
            },
        }
    }
}

/// The uploads of a push: position and key of each record still to upload.
pub open spec fn push_plan_spec(records: Seq<RecordView>, root: Seq<char>) -> Result<
    Seq<(int, Seq<char>)>,
    ErrorView,
> {
    push_plan_upto(records, root, records.len())
}

/// The view of an upload list.
pub open spec fn uploads_view(u: Seq<Upload>) -> Seq<(int, Seq<char>)> {
    u.map_values(|x: Upload| (x.index as int, x.key@))
}

proof fn lemma_push_failure_stays(records: Seq<RecordView>, root: Seq<char>, n: nat, m: nat)
    requires
        n <= m <= records.len(),
        push_plan_upto(records, root, n) is Err,
    ensures
        push_plan_upto(records, root, m) == push_plan_upto(records, root, n),
    decreases m - n,
{
    if n < m {
        lemma_push_failure_stays(records, root, n, (m - 1) as nat);
    }
}

/// The uploads that a push makes; see `push_plan_spec`. Each upload also
/// carries the record's local path.
pub fn push_plan(records: &Vec<ManifestRecord>, ls_root: &str) -> (r: Result<Vec<Upload>, BackupError>)
    ensures
        match r {
            Ok(u) => push_plan_spec(records_view(records@), ls_root@) == Ok::<_, ErrorView>(
                uploads_view(u@),
            ) && forall|k: int|
                0 <= k < u@.len() ==> (#[trigger] u@[k]).path@ == records@[u@[k].index as int].local_path@,
            Err(e) => push_plan_spec(records_view(records@), ls_root@) == Err::<
                Seq<(int, Seq<char>)>,
                _,
            >(e@),
        },
{
    let ghost views = records_view(records@);
    let mut out: Vec<Upload> = Vec::new();
    assert(uploads_view(out@) =~= Seq::<(int, Seq<char>)>::empty());
    let mut i: usize = 0;
    while i < records.len()
        invariant
            views == records_view(records@),
            i <= records@.len(),
            push_plan_upto(views, ls_root@, i as nat) == Ok::<_, ErrorView>(uploads_view(out@)),
            forall|k: int|
                0 <= k < out@.len() ==> (#[trigger] out@[k]).index < records@.len() && out@[k].path@
                    == records@[out@[k].index as int].local_path@,
        decreases records@.len() - i,
    {
        let r = &records[i];
        assert(views[i as int] == r@);
        if r.object_key.unicode_len() == 0 {
            if r.local_path.unicode_len() == 0 {
                proof {
                    lemma_push_failure_stays(views, ls_root@, (i + 1) as nat, records@.len());
                }
                return Err(BackupError::MissingLocalPath { label: r.label.clone() });
            }
            let key = build_object_key(ls_root, r.local_path.as_str());
            let ghost prev = out@;
            out.push(Upload { index: i, key, path: r.local_path.clone() });
            assert(uploads_view(out@) =~= uploads_view(prev).push((i as int, key@)));
        }
        i += 1;
    }
    Ok(out)
}

/// Records that the record at `index` was uploaded under `key`.
pub fn mark_uploaded(records: &mut Vec<ManifestRecord>, index: usize, key: String)
    requires
        index < old(records)@.len(),
    ensures
        final(records)@.len() == old(records)@.len(),
        records_view(final(records)@) == records_view(old(records)@).update(
            index as int,
            RecordView { object_key: key@, ..old(records)@[index as int]@ },
        ),
{
    let mut r = records[index].duplicate();
    r.object_key = key;
    records.set(index, r);
    assert(records_view(final(records)@) =~= records_view(old(records)@).update(
        index as int,
        RecordView { object_key: key@, ..old(records)@[index as int]@ },
    ));
}

/// The records after each upload of `plan` has been recorded, in order.
pub open spec fn after_uploads(records: Seq<RecordView>, plan: Seq<(int, Seq<char>)>) -> Seq<
    RecordView,
>
    decreases plan.len(),
{
    if plan.len() == 0 {
        records
    } else {
        let before = after_uploads(records, plan.drop_last());
        let (i, key) = plan.last();
        if 0 <= i < before.len() {
            before.update(i, RecordView { object_key: key, ..before[i] })
        } else {
            before
        }
    }
}

proof fn lemma_after_uploads_upto(records: Seq<RecordView>, root: Seq<char>, n: nat)
    requires
        n <= records.len(),
        push_plan_upto(records, root, n) is Ok,
    ensures
        ({
            let after = after_uploads(records, push_plan_upto(records, root, n)->Ok_0);
            &&& after.len() == records.len()
            &&& forall|j: int|
                0 <= j < records.len() ==> #[trigger] after[j] == if j < n && records[j].object_key.len()
                    == 0 {
                    RecordView { object_key: object_key_for(root, records[j].local_path), ..records[j] }
                } else {
                    records[j]
                }
        }),
    decreases n,
{
    if n > 0 {
        lemma_after_uploads_upto(records, root, (n - 1) as nat);
        let p = push_plan_upto(records, root, (n - 1) as nat)->Ok_0;
        let r = records[n - 1];
        if r.object_key.len() == 0 {
            let q = p.push((n - 1, object_key_for(root, r.local_path)));
            assert(q.drop_last() =~= p);
        }
    }
}

proof fn lemma_nothing_to_push(records: Seq<RecordView>, root: Seq<char>, n: nat)
    requires
        n <= records.len(),
        forall|j: int| 0 <= j < n ==> (#[trigger] records[j]).object_key.len() > 0,
    ensures
        push_plan_upto(records, root, n) == Ok::<_, ErrorView>(Seq::<(int, Seq<char>)>::empty()),
    decreases n,
{
    if n > 0 {
        lemma_nothing_to_push(records, root, (n - 1) as nat);
    }
}

/// Pushing is idempotent: once every upload of a push is recorded, a second
/// push finds nothing to upload and leaves the records as they are. This
/// needs every record still to upload to get a non-empty key.
pub proof fn lemma_push_idempotent(records: Seq<RecordView>, root: Seq<char>)
    requires
        push_plan_spec(records, root) is Ok,
        forall|j: int|
            0 <= j < records.len() && (#[trigger] records[j]).object_key.len() == 0 ==> object_key_for(
                root,
                records[j].local_path,
            ).len() > 0,
    ensures
        ({
            let after = after_uploads(records, push_plan_spec(records, root)->Ok_0);
            &&& push_plan_spec(after, root) == Ok::<_, ErrorView>(Seq::<(int, Seq<char>)>::empty())
            &&& after_uploads(after, Seq::empty()) == after
        }),
{
    lemma_after_uploads_upto(records, root, records.len());
    let after = after_uploads(records, push_plan_spec(records, root)->Ok_0);
    assert forall|j: int| 0 <= j < after.len() implies (#[trigger] after[j]).object_key.len() > 0 by {
        if records[j].object_key.len() == 0 {
            assert(after[j].object_key == object_key_for(root, records[j].local_path));
        }
    }
    lemma_nothing_to_push(after, root, after.len());
}

/// What a pull fetches for `label` (which may be `latest`): the full chain
/// of the label back to its anchor, every record of which must have been
/// uploaded; otherwise the first record of the chain without an object key
/// is named.
pub open spec fn pull_spec(records: Seq<ManifestRecord>, label: Seq<char>) -> Result<
    Seq<ManifestRecord>,
    ErrorView,
> {
    match restore_plan(records, label, Seq::empty()) {
        Err(e) => Err(e),
        Ok(c) => if forall|k: int| 0 <= k < c.len() ==> (#[trigger] c[k]).object_key@.len() > 0 {
            Ok(c)
        } else {
            let k = choose|k: int|
                0 <= k < c.len() && (#[trigger] c[k]).object_key@.len() == 0 && forall|j: int|
                    0 <= j < k ==> (#[trigger] c[j]).object_key@.len() > 0;
            Err(ErrorView::MissingObjectKey(c[k].label@))
        },
    }
}

/// The records whose objects a pull of `label` downloads, oldest first;
/// see `pull_spec`.
pub fn pull_plan(records: &Vec<ManifestRecord>, label: &str) -> (r: Result<
    Vec<ManifestRecord>,
    BackupError,
>)
    ensures
        outcome(r) == pull_spec(records@, label@),
{
    let none: Vec<String> = Vec::new();
    let chain = match plan_restore(records, label, &none) {
        Err(e) => {
            return Err(e);
        },
        Ok(c) => c,
    };
    assert(none@ =~= Seq::<String>::empty());
    let mut k: usize = 0;
    while k < chain.len()
        invariant
            restore_plan(records@, label@, Seq::empty()) == Ok::<_, ErrorView>(chain@),
            k <= chain@.len(),
            forall|j: int| 0 <= j < k ==> (#[trigger] chain@[j]).object_key@.len() > 0,
        decreases chain@.len() - k,
    {
        if chain[k].object_key.unicode_len() == 0 {
            proof {
                let c = chain@;
                assert(0 <= k < c.len() && (c[k as int]).object_key@.len() == 0 && forall|j: int|
                    0 <= j < k ==> (#[trigger] c[j]).object_key@.len() > 0);
                let w = choose|w: int|
                    0 <= w < c.len() && (#[trigger] c[w]).object_key@.len() == 0 && forall|j: int|
                        0 <= j < w ==> (#[trigger] c[j]).object_key@.len() > 0;
                assert(0 <= k < c.len() && c[k as int].object_key@.len() == 0);
                if w < k {
                    assert(c[w].object_key@.len() > 0);
                } else if w > k {
                    assert(c[k as int].object_key@.len() > 0);
                }
            }
            return Err(BackupError::MissingObjectKey { label: chain[k].label.clone() });
        }
        k += 1;
    }
    Ok(chain)
}

} // verus!
