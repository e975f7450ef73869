//! Restore chains: from a target label back along parent labels to an
//! anchor, or to an ancestor that is already present.

use vstd::prelude::*;
use crate::error::{BackupError, ErrorView, outcome};
use crate::label::{ensure_label, valid_label};
use crate::manifest::{ManifestRecord, is_anchor};
use crate::text::same_text;
use crate::timestamp::{parse_rfc3339, rfc3339_nanos};

verus! {

/// The index of the most recently inserted record among the first `n` that
/// has `label`.
pub open spec fn latest_index(records: Seq<ManifestRecord>, label: Seq<char>, n: nat) -> Option<int>
    decreases n,
{
    if n == 0 || n > records.len() {
        None
    } else if records[n - 1].label@ == label {
        Some(n - 1)
    } else {
        latest_index(records, label, (n - 1) as nat)
    }
}

/// The record that a label resolves to: the last one inserted with it.
pub open spec fn record_for(records: Seq<ManifestRecord>, label: Seq<char>) -> Option<int> {
    latest_index(records, label, records.len())
}

/// Whether `label` is among `present`.
pub open spec fn is_present(present: Seq<String>, label: Seq<char>) -> bool {
    exists|k: int| 0 <= k < present.len() && (#[trigger] present[k])@ == label
}

/// The chain that restores `label`, oldest first: look up the record of
/// `label`; stop at an anchor; fail on an incremental without parent; stop
/// when the parent is present; otherwise continue with the parent, at most
/// `steps` more times.
pub open spec fn walk(
    records: Seq<ManifestRecord>,
    label: Seq<char>,
    present: Seq<String>,
    steps: nat,
) -> Result<Seq<ManifestRecord>, ErrorView>
    decreases steps,
{
    match record_for(records, label) {
        None => Err(ErrorView::LabelNotFound(label)),
        Some(i) => {
            let r = records[i];
            if is_anchor(r) {
                Ok(seq![r])
            } else if r.parent@.len() == 0 {
                Err(ErrorView::MissingParent(label))
            } else if is_present(present, r.parent@) {
                Ok(seq![r])
            } else if steps == 0 {
                Err(ErrorView::ParentCycle(label))
            } else {
                match walk(records, r.parent@, present, (steps - 1) as nat) {
                    Ok(older) => Ok(older.push(r)),
                    Err(e) => Err(e),
                }
            }
        },
    }
}

/// The restore chain of `label`. A walk longer than the manifest can only
/// go round a cycle of parents, and fails.
pub open spec fn chain_of(records: Seq<ManifestRecord>, label: Seq<char>, present: Seq<String>) -> Result<
    Seq<ManifestRecord>,
    ErrorView,
> {
    walk(records, label, present, records.len())
}

/// `later` appended to the chain of a successful walk.
pub open spec fn then_append(
    r: Result<Seq<ManifestRecord>, ErrorView>,
    later: Seq<ManifestRecord>,
) -> Result<Seq<ManifestRecord>, ErrorView> {
    match r {
        Ok(s) => Ok(s + later),
        Err(e) => Err(e),
    }
}

/// `s` in reverse order.
pub open spec fn reversed(s: Seq<ManifestRecord>) -> Seq<ManifestRecord> {
    Seq::new(s.len(), |i: int| s[s.len() - 1 - i])
}

/// Finds the last record inserted with `label`.
fn find_latest(records: &Vec<ManifestRecord>, label: &str) -> (r: Option<usize>)
    ensures
        match r {
            Some(i) => record_for(records@, label@) == Some(i as int) && i < records@.len(),
            None => record_for(records@, label@) is None,
        },
{
    let mut n = records.len();
    while n > 0
        invariant
            n <= records@.len(),
            latest_index(records@, label@, records@.len()) == latest_index(records@, label@, n as nat),
        decreases n,
    {
        if same_text(records[n - 1].label.as_str(), label) {
            return Some(n - 1);
        }
        n -= 1;
    }
    None
}

fn contains_label(present: &Vec<String>, label: &str) -> (r: bool)
    ensures
        r == is_present(present@, label@),
{
    let mut k: usize = 0;
    while k < present.len()
        invariant
            k <= present@.len(),
            forall|j: int| 0 <= j < k ==> (#[trigger] present@[j])@ != label@,
        decreases present@.len() - k,
    {
        if same_text(present[k].as_str(), label) {
            return true;
        }
        k += 1;
    }
    false
}

/// The records to apply, oldest first, to restore `label`, given the labels
/// whose snapshots are already present: the walk stops at an anchor or at a
/// present parent.
pub fn resolve_chain(records: &Vec<ManifestRecord>, label: &str, present: &Vec<String>) -> (r: Result<
    Vec<ManifestRecord>,
    BackupError,
>)
    ensures
        outcome(r) == chain_of(records@, label@, present@),
{
    let ghost total = records@.len();
    let mut newest_first: Vec<ManifestRecord> = Vec::new();
    let mut current: String = label.to_owned();
    let mut steps: usize = records.len();
    loop
        invariant
            steps <= total,
            total == records@.len(),
            chain_of(records@, label@, present@) == then_append(
                walk(records@, current@, present@, steps as nat),
                reversed(newest_first@),
            ),
        decreases steps,
    {
        let i = match find_latest(records, current.as_str()) {
            None => {
                return Err(BackupError::LabelNotFound { label: current });
            },
            Some(i) => i,
        };
        let record = records[i].duplicate();
        let ghost before = newest_first@;
        if record.is_anchor() || (record.parent.unicode_len() > 0 && contains_label(
            present,
            record.parent.as_str(),
        )) {
            newest_first.push(record);
            assert(reversed(newest_first@) =~= seq![records@[i as int]] + reversed(before));
            let mut out: Vec<ManifestRecord> = Vec::new();
            let mut k: usize = newest_first.len();
            while k > 0
                invariant
                    k <= newest_first@.len(),
                    out@ == reversed(newest_first@).subrange(0, (newest_first@.len() - k) as int),
                decreases k,
            {
                out.push(newest_first[k - 1].duplicate());
                assert(out@ =~= reversed(newest_first@).subrange(
                    0,
                    (newest_first@.len() - k + 1) as int,
                ));
                k -= 1;
            }
            assert(out@ =~= reversed(newest_first@));
            return Ok(out);
        }
        if record.parent.unicode_len() == 0 {
            return Err(BackupError::MissingParent { label: current });
        }
        if steps == 0 {
            return Err(BackupError::ParentCycle { label: current });
        }
        proof {
            assert(seq![records@[i as int]] + reversed(before) =~= reversed(before.push(records@[i as int])));
            assert(forall|s: Seq<ManifestRecord>| (s.push(records@[i as int]) + reversed(before))
                =~= s + reversed(before.push(records@[i as int])));
        }
        current = record.parent.clone();
        newest_first.push(record);
        steps -= 1;
    }
}

/// Whether position `i` holds the latest instant: no instant is later, and
/// every later position holds an earlier one (of equal instants, the last
/// one seen wins).
pub open spec fn is_latest(instants: Seq<i128>, i: int) -> bool {
    &&& 0 <= i < instants.len()
    &&& forall|j: int| 0 <= j < instants.len() ==> #[trigger] instants[j] <= instants[i]
    &&& forall|j: int| i < j < instants.len() ==> #[trigger] instants[j] < instants[i]
}

/// The label of the latest record, given the instant of each record's
/// timestamp; `None` when there is no record.
pub fn latest_label_at(records: &Vec<ManifestRecord>, instants: &Vec<i128>) -> (r: Option<String>)
    requires
        instants@.len() == records@.len(),
    ensures
        records@.len() == 0 <==> r is None,
        r matches Some(l) ==> exists|i: int|
            is_latest(instants@, i) && l@ == #[trigger] records@[i].label@,
{
    if records.len() == 0 {
        return None;
    }
    let mut best: usize = 0;
    let mut k: usize = 1;
    while k < records.len()
        invariant
            instants@.len() == records@.len(),
            1 <= k <= records@.len(),
            best < k,
            forall|j: int| 0 <= j < k ==> #[trigger] instants@[j] <= instants@[best as int],
            forall|j: int| best < j < k ==> #[trigger] instants@[j] < instants@[best as int],
        decreases records@.len() - k,
    {
        if instants[k] >= instants[best] {
            best = k;
        }
        k += 1;
    }
    assert(is_latest(instants@, best as int));
    let l = records[best].label.clone();
    assert(l@ == records@[best as int].label@);
    Some(l)
}

/// Whether the first `n` timestamps all parse.
pub open spec fn all_parse(records: Seq<ManifestRecord>, n: int) -> bool {
    forall|j: int| 0 <= j < n ==> (#[trigger] rfc3339_nanos(records[j].ts@)) is Some
}

/// The instants of the records' timestamps, where all of them parse.
pub open spec fn parsed_instants(records: Seq<ManifestRecord>) -> Seq<i128> {
    records.map_values(|r: ManifestRecord| rfc3339_nanos(r.ts@)->0)
}

/// The position of the latest record, when every timestamp parses.
pub open spec fn latest_position(records: Seq<ManifestRecord>) -> int {
    choose|i: int| is_latest(parsed_instants(records), i)
}

/// The position of the first timestamp that does not parse, when one does not.
pub open spec fn first_unparsed(records: Seq<ManifestRecord>) -> int {
    choose|i: int|
        0 <= i < records.len() && all_parse(records, i) && (#[trigger] rfc3339_nanos(records[i].ts@)) is None
}

/// What resolving `latest` gives: the label of the record whose timestamp is
/// the latest instant (the last seen among equal instants); an error on an
/// empty manifest, or naming the first timestamp that is not RFC 3339.
pub open spec fn latest_spec(records: Seq<ManifestRecord>) -> Result<Seq<char>, ErrorView> {
    if records.len() == 0 {
        Err(ErrorView::EmptyManifest)
    } else if all_parse(records, records.len() as int) {
        Ok(records[latest_position(records)].label@)
    } else {
        Err(ErrorView::InvalidTimestamp(records[first_unparsed(records)].ts@))
    }
}

/// At most one position holds the latest instant.
pub proof fn lemma_latest_unique(instants: Seq<i128>, i: int, j: int)
    requires
        is_latest(instants, i),
        is_latest(instants, j),
    ensures
        i == j,
{
    if i < j {
        assert(instants[j] < instants[i]);
        assert(instants[i] <= instants[j]);
    } else if j < i {
        assert(instants[i] < instants[j]);
        assert(instants[j] <= instants[i]);
    }
}

proof fn lemma_latest_exists(instants: Seq<i128>, n: int)
    requires
        0 < n <= instants.len(),
    ensures
        exists|i: int| is_latest(instants.subrange(0, n), i),
    decreases n,
{
    let s = instants.subrange(0, n);
    if n == 1 {
        assert(is_latest(s, 0));
    } else {
        lemma_latest_exists(instants, n - 1);
        let t = instants.subrange(0, n - 1);
        let i = choose|i: int| is_latest(t, i);
        assert forall|j: int| 0 <= j < n - 1 implies #[trigger] s[j] == t[j] by {}
        if s[n - 1] >= s[i] {
            assert(is_latest(s, n - 1));
        } else {
            assert(is_latest(s, i));
        }
    }
}

/// Resolving `latest` over records whose timestamps all parse gives the
/// label of a record whose instant no other record exceeds, and that every
/// later record precedes: the order of the labels themselves plays no part.
pub proof fn lemma_latest_is_maximal(records: Seq<ManifestRecord>)
    requires
        records.len() > 0,
        all_parse(records, records.len() as int),
    ensures
        latest_spec(records) matches Ok(l) && exists|i: int|
            0 <= i < records.len() && l == #[trigger] records[i].label@ && (forall|j: int|
                0 <= j < records.len() ==> rfc3339_nanos(records[j].ts@)->0 <= rfc3339_nanos(
                    records[i].ts@,
                )->0) && (forall|j: int|
                i < j < records.len() ==> rfc3339_nanos(records[j].ts@)->0 < rfc3339_nanos(
                    records[i].ts@,
                )->0),
{
    let inst = parsed_instants(records);
    lemma_latest_exists(inst, inst.len() as int);
    assert(inst.subrange(0, inst.len() as int) =~= inst);
    let i = latest_position(records);
    assert(is_latest(inst, i));
    assert forall|j: int| 0 <= j < records.len() implies #[trigger] inst[j] == rfc3339_nanos(
        records[j].ts@,
    )->0 by {}
    assert(inst[i] == rfc3339_nanos(records[i].ts@)->0);
    assert forall|j: int| 0 <= j < records.len() implies rfc3339_nanos(records[j].ts@)->0 <= rfc3339_nanos(
        records[i].ts@,
    )->0 by {
        assert(inst[j] <= inst[i]);
    }
    assert forall|j: int| i < j < records.len() implies rfc3339_nanos(records[j].ts@)->0 < rfc3339_nanos(
        records[i].ts@,
    )->0 by {
        assert(inst[j] < inst[i]);
    }
}

/// The label of the latest record; see `latest_spec`.
pub fn latest_label_from_records(records: &Vec<ManifestRecord>) -> (r: Result<String, BackupError>)
    ensures
        outcome(r) == latest_spec(records@),
{
    if records.len() == 0 {
        return Err(BackupError::EmptyManifest);
    }
    let mut instants: Vec<i128> = Vec::new();
    let mut k: usize = 0;
    while k < records.len()
        invariant
            k <= records@.len(),
            instants@.len() == k,
            all_parse(records@, k as int),
            forall|j: int| 0 <= j < k ==> Some(#[trigger] instants@[j]) == rfc3339_nanos(records@[j].ts@),
        decreases records@.len() - k,
    {
        match parse_rfc3339(records[k].ts.as_str()) {
            None => {
                proof {
                    assert(!all_parse(records@, records@.len() as int));
                    let f = first_unparsed(records@);
                    assert(0 <= k < records@.len() && all_parse(records@, k as int) && rfc3339_nanos(records@[k as int].ts@) is None);
                    if f < k {
                        assert(rfc3339_nanos(records@[f].ts@) is Some);
                    } else if f > k {
                        assert(rfc3339_nanos(records@[k as int].ts@) is Some);
                    }
                }
                return Err(BackupError::InvalidTimestamp { ts: records[k].ts.clone() });
            },
            Some(t) => {
                instants.push(t);
            },
        }
        k += 1;
    }
    assert(instants@ =~= parsed_instants(records@));
    match latest_label_at(records, &instants) {
        Some(l) => {
            proof {
                let i = choose|i: int| is_latest(instants@, i) && l@ == #[trigger] records@[i].label@;
                lemma_latest_unique(instants@, i, latest_position(records@));
            }
            Ok(l)
        },
        None => Err(BackupError::EmptyManifest),
    }
}

/// Whether `label` is the word `latest`.
pub open spec fn is_latest_word(label: Seq<char>) -> bool {
    label == seq!['l', 'a', 't', 'e', 's', 't']
}

/// The label that `label` names: the latest record's label for `latest`,
/// otherwise `label` itself, which must be `YYYY-MM`.
pub open spec fn resolved_label(records: Seq<ManifestRecord>, label: Seq<char>) -> Result<
    Seq<char>,
    ErrorView,
> {
    if is_latest_word(label) {
        latest_spec(records)
    } else if valid_label(label) {
        Ok(label)
    } else {
        Err(ErrorView::InvalidLabel(label))
    }
}

/// The label that `label` names: the latest record's label for `latest`,
/// otherwise `label` itself once it is checked to be `YYYY-MM`.
pub fn resolve_label_input(records: &Vec<ManifestRecord>, label: &str) -> (r: Result<String, BackupError>)
    ensures
        outcome(r) == resolved_label(records@, label@),
{
    proof {
        reveal_strlit("latest");
        assert("latest"@ =~= seq!['l', 'a', 't', 'e', 's', 't']);
    }
    if same_text(label, "latest") {
        return latest_label_from_records(records);
    }
    match ensure_label(label) {
        Err(e) => Err(e),
        Ok(()) => Ok(label.to_owned()),
    }
}

/// The label that `label` names in a manifest, which must not be empty.
pub fn resolve_label_from_manifest(records: &Vec<ManifestRecord>, label: &str) -> (r: Result<
    String,
    BackupError,
>)
    ensures
        outcome(r) == (if records@.len() == 0 {
            Err(ErrorView::EmptyManifest)
        } else {
            resolved_label(records@, label@)
        }),
{
    if records.len() == 0 {
        return Err(BackupError::EmptyManifest);
    }
    resolve_label_input(records, label)
}

/// The restore plan of `label` (which may be `latest`): the manifest must
/// not be empty, the label must resolve, and the chain is walked with the
/// labels in `present` treated as already restored.
pub open spec fn restore_plan(records: Seq<ManifestRecord>, label: Seq<char>, present: Seq<String>) -> Result<
    Seq<ManifestRecord>,
    ErrorView,
> {
    if records.len() == 0 {
        Err(ErrorView::EmptyManifest)
    } else {
        match resolved_label(records, label) {
            Err(e) => Err(e),
            Ok(l) => chain_of(records, l, present),
        }
    }
}

/// The records to apply, oldest first, to restore `label`; see
/// `restore_plan`.
pub fn plan_restore(records: &Vec<ManifestRecord>, label: &str, present: &Vec<String>) -> (r: Result<
    Vec<ManifestRecord>,
    BackupError,
>)
    ensures
        outcome(r) == restore_plan(records@, label@, present@),
{
    let resolved = match resolve_label_from_manifest(records, label) {
        Err(e) => {
            return Err(e);
        },
        Ok(l) => l,
    };
    resolve_chain(records, resolved.as_str(), present)
}

/// The full chain of `label`, oldest first, back to its anchor: nothing is
/// taken as already present.
pub fn plan_chain_from_records(records: &Vec<ManifestRecord>, label: &str) -> (r: Result<
    Vec<ManifestRecord>,
    BackupError,
>)
    ensures
        outcome(r) == chain_of(records@, label@, Seq::<String>::empty()),
{
    let none: Vec<String> = Vec::new();
    resolve_chain(records, label, &none)
}

/// An incremental record without parent fails the walk that reaches it,
/// whatever is present: it never yields a chain, empty or not.
pub proof fn lemma_missing_parent_fails(
    records: Seq<ManifestRecord>,
    label: Seq<char>,
    present: Seq<String>,
    steps: nat,
)
    requires
        record_for(records, label) matches Some(i) && !is_anchor(records[i]) && records[i].parent@.len() == 0,
    ensures
        walk(records, label, present, steps) == Err::<Seq<ManifestRecord>, ErrorView>(
            ErrorView::MissingParent(label),
        ),
{
}

/// A walk never passes over an incremental row without parent: every
/// record of a chain it yields is an anchor or names a parent, and when it
/// fails for a missing parent, the label it names resolves to such a row.
pub proof fn lemma_orphan_rows_fail(
    records: Seq<ManifestRecord>,
    label: Seq<char>,
    present: Seq<String>,
    steps: nat,
)
    ensures
        walk(records, label, present, steps) matches Ok(c) ==> forall|k: int|
            0 <= k < c.len() ==> is_anchor(#[trigger] c[k]) || c[k].parent@.len() > 0,
        walk(records, label, present, steps) matches Err(ErrorView::MissingParent(l)) ==> (record_for(
            records,
            l,
        ) matches Some(i) && !is_anchor(records[i]) && records[i].parent@.len() == 0),
    decreases steps,
{
    if let Some(i) = record_for(records, label) {
        let r = records[i];
        if !is_anchor(r) && r.parent@.len() != 0 && !is_present(present, r.parent@) && steps > 0 {
            lemma_orphan_rows_fail(records, r.parent@, present, (steps - 1) as nat);
            if let Ok(older) = walk(records, r.parent@, present, (steps - 1) as nat) {
                let c = older.push(r);
                assert forall|k: int| 0 <= k < c.len() implies is_anchor(#[trigger] c[k]) || c[k].parent@.len() > 0 by {
                    if k < older.len() {
                        assert(c[k] == older[k]);
                    }
                }
            }
        }
    }
}

/// Every chain that a walk yields ends with the record of its target and
/// starts either with an anchor or with a record whose parent is present.
pub proof fn lemma_chain_shape(
    records: Seq<ManifestRecord>,
    label: Seq<char>,
    present: Seq<String>,
    steps: nat,
)
    requires
        walk(records, label, present, steps) is Ok,
    ensures
        ({
            let c = walk(records, label, present, steps)->Ok_0;
            &&& c.len() > 0
            &&& record_for(records, label) matches Some(i) && c.last() == records[i]
            &&& is_anchor(c[0]) || is_present(present, c[0].parent@)
        }),
    decreases steps,
{
    let i = record_for(records, label)->0;
    let r = records[i];
    if !is_anchor(r) && r.parent@.len() != 0 && !is_present(present, r.parent@) && steps > 0 {
        lemma_chain_shape(records, r.parent@, present, (steps - 1) as nat);
        let older = walk(records, r.parent@, present, (steps - 1) as nat)->Ok_0;
        assert(older.push(r)[0] == older[0]);
    }
}

/// The records of a restore plan still to hydrate: those whose label is
/// not present, in order; an error for the first of them without a local
/// path.
pub open spec fn hydration_upto(plan: Seq<ManifestRecord>, present: Seq<String>, n: nat) -> Result<
    Seq<ManifestRecord>,
    ErrorView,
>
    decreases n,
{
    if n == 0 || n > plan.len() {
        Ok(Seq::empty())
    } else {
        match hydration_upto(plan, present, (n - 1) as nat) {
            Err(e) => Err(e),
            Ok(done) => {
                let r = plan[n - 1];
                if is_present(present, r.label@) {
                    Ok(done)
                } else if r.local_path@.len() == 0 {
                    Err(ErrorView::MissingLocalPath(r.label@))
                } else {
                    Ok(done.push(r))
                }
            },
        }
    }
}

proof fn lemma_hydration_failure_stays(plan: Seq<ManifestRecord>, present: Seq<String>, n: nat, m: nat)
    requires
        n <= m <= plan.len(),
        hydration_upto(plan, present, n) is Err,
    ensures
        hydration_upto(plan, present, m) == hydration_upto(plan, present, n),
    decreases m - n,
{
    if n < m {
        lemma_hydration_failure_stays(plan, present, n, (m - 1) as nat);
    }
}

/// The records of `plan` to hydrate, skipping those whose snapshot is
/// present; see `hydration_upto`.
pub fn hydration_queue(plan: &Vec<ManifestRecord>, present: &Vec<String>) -> (r: Result<
    Vec<ManifestRecord>,
    BackupError,
>)
    ensures
        outcome(r) == hydration_upto(plan@, present@, plan@.len()),
{
    let mut out: Vec<ManifestRecord> = Vec::new();
    let mut i: usize = 0;
    while i < plan.len()
        invariant
            i <= plan@.len(),
            hydration_upto(plan@, present@, i as nat) == Ok::<_, ErrorView>(out@),
        decreases plan@.len() - i,
    {
        let r = &plan[i];
        if !contains_label(present, r.label.as_str()) {
            if r.local_path.unicode_len() == 0 {
                proof {
                    lemma_hydration_failure_stays(plan@, present@, (i + 1) as nat, plan@.len());
                }
                return Err(BackupError::MissingLocalPath { label: r.label.clone() });
            }
            out.push(r.duplicate());
        }
        i += 1;
    }
    Ok(out)
}

} // verus!
