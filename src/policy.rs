//! The anchor/incremental policy: a new anchor is due once the last one is
//! too old, or once the incrementals after it add up to its size.

use vstd::prelude::*;
use crate::chain::{all_parse, first_unparsed, latest_label_from_records, latest_spec, parsed_instants};
use crate::error::{BackupError, ErrorView, outcome};
use crate::manifest::{ManifestRecord, is_anchor};
use crate::timestamp::{now_nanos, parse_rfc3339, rfc3339_nanos};

verus! {

/// What the next backup should be.
#[derive(Debug, Clone, Copy, PartialEq, Eq, Structural)]
pub enum SnapshotDecision {
    Anchor,
    Incremental,
}

impl View for SnapshotDecision {
    type V = SnapshotDecision;

    open spec fn view(&self) -> SnapshotDecision {
        *self
    }
}

/// The inputs of the policy besides the manifest.
#[derive(Debug, Clone, Copy)]
pub struct PolicyInput {
    /// The current instant, in nanoseconds since the Unix epoch.
    pub now: i128,
    /// The age, in 30-day months, at which an anchor is due.
    pub max_months_between_anchor: i64,
}

impl Default for PolicyInput {
    /// The current instant, and twelve months between anchors.
    fn default() -> (r: PolicyInput)
        ensures
            r.max_months_between_anchor == 12,
    {
        PolicyInput { now: now_nanos(), max_months_between_anchor: 12 }
    }
}

/// Thirty days, in nanoseconds.
pub const MONTH_NANOS: i128 = 2_592_000_000_000_000;

/// The position of the last anchor among the first `n` records.
pub open spec fn last_anchor(records: Seq<ManifestRecord>, n: nat) -> Option<int>
    decreases n,
{
    if n == 0 || n > records.len() {
        None
    } else if is_anchor(records[n - 1]) {
        Some(n - 1)
    } else {
        last_anchor(records, (n - 1) as nat)
    }
}

/// The total size of a sequence of records.
pub open spec fn total_bytes(s: Seq<ManifestRecord>) -> int
    decreases s.len(),
{
    if s.len() == 0 {
        0
    } else {
        total_bytes(s.drop_last()) + s.last().bytes
    }
}

/// Whole 30-day months from `then` to `now`, rounded down.
pub open spec fn elapsed_months(now: int, then: int) -> int {
    (now - then) / (MONTH_NANOS as int)
}

/// The decision for `records`, given the instant of the last anchor's
/// timestamp: an anchor for an empty manifest; an error when no record is
/// an anchor; otherwise an anchor once the last anchor is
/// `max_months_between_anchor` months old or the records after it add up
/// to its size (at least one byte), and an incremental before.
pub open spec fn decision(records: Seq<ManifestRecord>, anchor_instant: int, input: PolicyInput) -> Result<
    SnapshotDecision,
    ErrorView,
> {
    if records.len() == 0 {
        Ok(SnapshotDecision::Anchor)
    } else {
        match last_anchor(records, records.len()) {
            None => Err(ErrorView::NoAnchor),
            Some(a) => {
                let floor_bytes = if records[a].bytes >= 1 {
                    records[a].bytes as int
                } else {
                    1
                };
                if elapsed_months(input.now as int, anchor_instant) >= input.max_months_between_anchor
                    || total_bytes(records.subrange(a + 1, records.len() as int)) >= floor_bytes {
                    Ok(SnapshotDecision::Anchor)
                } else {
                    Ok(SnapshotDecision::Incremental)
                }
            },
        }
    }
}

/// Once the policy asks for an anchor, it keeps asking for one as time
/// passes, for the same records and threshold.
pub proof fn lemma_anchor_stays_due(
    records: Seq<ManifestRecord>,
    anchor_instant: int,
    input: PolicyInput,
    later: PolicyInput,
)
    requires
        decision(records, anchor_instant, input) == Ok::<_, ErrorView>(SnapshotDecision::Anchor),
        later.now >= input.now,
        later.max_months_between_anchor == input.max_months_between_anchor,
    ensures
        decision(records, anchor_instant, later) == Ok::<_, ErrorView>(SnapshotDecision::Anchor),
{
    vstd::arithmetic::div_mod::lemma_div_is_ordered(
        input.now as int - anchor_instant,
        later.now as int - anchor_instant,
        MONTH_NANOS as int,
    );
}

/// The position of the last anchor.
pub fn find_last_anchor(records: &Vec<ManifestRecord>) -> (r: Option<usize>)
    ensures
        match r {
            Some(a) => last_anchor(records@, records@.len()) == Some(a as int) && a < records@.len(),
            None => last_anchor(records@, records@.len()) is None,
        },
{
    let mut n = records.len();
    while n > 0
        invariant
            n <= records@.len(),
            last_anchor(records@, records@.len()) == last_anchor(records@, n as nat),
        decreases n,
    {
        if records[n - 1].is_anchor() {
            return Some(n - 1);
        }
        n -= 1;
    }
    None
}

proof fn lemma_floor_months(d: int, m: int)
    ensures
        (d / (MONTH_NANOS as int) >= m) == (d >= m * (MONTH_NANOS as int)),
{
    let k = MONTH_NANOS as int;
    let q = d / k;
    let r = d % k;
    assert(d == q * k + r && 0 <= r < k) by {
        vstd::arithmetic::div_mod::lemma_fundamental_div_mod(d, k);
    }
    if q >= m {
        assert(q * k >= m * k) by (nonlinear_arith)
            requires
                q >= m,
                k > 0,
        ;
    } else {
        assert(q * k <= (m - 1) * k) by (nonlinear_arith)
            requires
                q <= m - 1,
                k > 0,
        ;
        assert((m - 1) * k == m * k - k) by (nonlinear_arith);
    }
}

/// The decision for `records` given the instant of the last anchor's
/// timestamp; see `decision`.
pub fn decide_with_anchor_time(records: &Vec<ManifestRecord>, anchor_instant: i128, input: PolicyInput) -> (r: Result<
    SnapshotDecision,
    BackupError,
>)
    ensures
        outcome(r) == decision(records@, anchor_instant as int, input),
{
    if records.len() == 0 {
        return Ok(SnapshotDecision::Anchor);
    }
    let a = match find_last_anchor(records) {
        None => {
            return Err(BackupError::NoAnchor);
        },
        Some(a) => a,
    };
    let threshold: i128 = input.max_months_between_anchor as i128 * MONTH_NANOS;
    let too_old = match input.now.checked_sub(anchor_instant) {
        Some(d) => d >= threshold,
        None => input.now > anchor_instant,
    };
    proof {
        lemma_floor_months(input.now - anchor_instant, input.max_months_between_anchor as int);
    }
    let mut sum: u64 = 0;
    let mut j: usize = a + 1;
    while j < records.len()
        invariant
            a < j <= records@.len(),
            sum as int == if total_bytes(records@.subrange(a + 1, j as int)) <= u64::MAX {
                total_bytes(records@.subrange(a + 1, j as int))
            } else {
                u64::MAX as int
            },
            total_bytes(records@.subrange(a + 1, j as int)) >= 0,
        decreases records@.len() - j,
    {
        assert(records@.subrange(a + 1, j + 1).drop_last() =~= records@.subrange(a + 1, j as int));
        sum = sum.saturating_add(records[j].bytes);
        j += 1;
    }
    let floor_bytes: u64 = if records[a].bytes >= 1 {
        records[a].bytes
    } else {
        1
    };
    if too_old || sum >= floor_bytes {
        Ok(SnapshotDecision::Anchor)
    } else {
        Ok(SnapshotDecision::Incremental)
    }
}

/// What the policy decides for `records`: an anchor for an empty manifest,
/// an error without any anchor or when the last anchor's timestamp is not
/// RFC 3339, and `decision` at that timestamp's instant otherwise.
pub open spec fn policy_outcome(records: Seq<ManifestRecord>, input: PolicyInput) -> Result<
    SnapshotDecision,
    ErrorView,
> {
    if records.len() == 0 {
        Ok(SnapshotDecision::Anchor)
    } else {
        match last_anchor(records, records.len()) {
            None => Err(ErrorView::NoAnchor),
            Some(a) => match rfc3339_nanos(records[a].ts@) {
                None => Err(ErrorView::InvalidTimestamp(records[a].ts@)),
                Some(t) => decision(records, t as int, input),
            },
        }
    }
}

/// Decides whether the next backup is an anchor or an incremental; see
/// `policy_outcome`.
pub fn decide_snapshot_type(records: &Vec<ManifestRecord>, input: PolicyInput) -> (r: Result<
    SnapshotDecision,
    BackupError,
>)
    ensures
        outcome(r) == policy_outcome(records@, input),
{
    if records.len() == 0 {
        return Ok(SnapshotDecision::Anchor);
    }
    let a = match find_last_anchor(records) {
        None => {
            return Err(BackupError::NoAnchor);
        },
        Some(a) => a,
    };
    match parse_rfc3339(records[a].ts.as_str()) {
        None => Err(BackupError::InvalidTimestamp { ts: records[a].ts.clone() }),
        Some(t) => decide_with_anchor_time(records, t, input),
    }
}

/// `x` placed into `s` after every element whose instant is not later
/// than its own, scanning from the end.
pub open spec fn insert_by_instant(s: Seq<(i128, int)>, x: (i128, int)) -> Seq<(i128, int)>
    decreases s.len(),
{
    if s.len() == 0 {
        seq![x]
    } else if s.last().0 <= x.0 {
        s.push(x)
    } else {
        insert_by_instant(s.drop_last(), x).push(s.last())
    }
}

/// The stable sort by instant: equal instants keep their order.
pub open spec fn sort_by_instant(s: Seq<(i128, int)>) -> Seq<(i128, int)>
    decreases s.len(),
{
    if s.len() == 0 {
        Seq::empty()
    } else {
        insert_by_instant(sort_by_instant(s.drop_last()), s.last())
    }
}

/// Each instant paired with its position.
pub open spec fn keyed(instants: Seq<i128>) -> Seq<(i128, int)> {
    Seq::new(instants.len(), |i: int| (instants[i], i))
}

/// `records` in the order of the stable sort of their instants.
pub open spec fn sorted_records(records: Seq<ManifestRecord>, instants: Seq<i128>) -> Seq<ManifestRecord> {
    sort_by_instant(keyed(instants)).map_values(|p: (i128, int)| records[p.1])
}

proof fn lemma_insert_at(s: Seq<(i128, int)>, x: (i128, int), p: int)
    requires
        0 <= p <= s.len(),
        forall|k: int| p <= k < s.len() ==> (#[trigger] s[k]).0 > x.0,
        p == 0 || s[p - 1].0 <= x.0,
    ensures
        insert_by_instant(s, x) == s.insert(p, x),
    decreases s.len(),
{
    if s.len() == 0 {
        assert(s.insert(p, x) =~= seq![x]);
    } else if p == s.len() {
        assert(s.insert(p, x) =~= s.push(x));
    } else {
        lemma_insert_at(s.drop_last(), x, p);
        assert(s.insert(p, x) =~= s.drop_last().insert(p, x).push(s.last()));
    }
}

/// Whether instants never decrease along `s`.
pub open spec fn ordered(s: Seq<(i128, int)>) -> bool {
    forall|i: int, j: int| 0 <= i < j < s.len() ==> (#[trigger] s[i]).0 <= (#[trigger] s[j]).0
}

proof fn lemma_insert_ordered(s: Seq<(i128, int)>, x: (i128, int))
    requires
        ordered(s),
    ensures
        insert_by_instant(s, x).len() == s.len() + 1,
        ordered(insert_by_instant(s, x)),
        forall|k: int|
            0 <= k < s.len() + 1 ==> #[trigger] insert_by_instant(s, x)[k] == x || s.contains(
                insert_by_instant(s, x)[k],
            ),
    decreases s.len(),
{
    let r = insert_by_instant(s, x);
    if s.len() == 0 {
    } else if s.last().0 <= x.0 {
        assert forall|k: int| 0 <= k < s.len() + 1 implies #[trigger] r[k] == x || s.contains(r[k]) by {
            if k < s.len() {
                assert(r[k] == s[k]);
            }
        }
        assert forall|i: int, j: int| 0 <= i < j < r.len() implies (#[trigger] r[i]).0 <= (#[trigger] r[j]).0 by {
            if j == s.len() {
                assert(s[i].0 <= s[s.len() - 1].0 || i == s.len() - 1);
            }
        }
    } else {
        let d = s.drop_last();
        assert(ordered(d));
        lemma_insert_ordered(d, x);
        let t = insert_by_instant(d, x);
        assert forall|k: int| 0 <= k < t.len() implies (#[trigger] t[k]).0 <= s.last().0 by {
            if t[k] != x {
                let m = choose|m: int| 0 <= m < d.len() && d[m] == t[k];
                assert(s[m] == d[m]);
                assert(s[m].0 <= s[s.len() - 1].0);
            }
        }
        assert forall|k: int| 0 <= k < s.len() + 1 implies #[trigger] r[k] == x || s.contains(r[k]) by {
            if k < t.len() {
                if t[k] != x {
                    let m = choose|m: int| 0 <= m < d.len() && d[m] == t[k];
                    assert(s[m] == t[k]);
                }
            } else {
                assert(s[s.len() - 1] == r[k]);
            }
        }
        assert forall|i: int, j: int| 0 <= i < j < r.len() implies (#[trigger] r[i]).0 <= (#[trigger] r[j]).0 by {
            if j == t.len() {
                assert(t[i].0 <= s.last().0);
            } else {
                assert(t[i].0 <= t[j].0);
            }
        }
    }
}

/// The stable sort by instant puts instants in non-decreasing order.
pub proof fn lemma_sort_ordered(s: Seq<(i128, int)>)
    ensures
        sort_by_instant(s).len() == s.len(),
        ordered(sort_by_instant(s)),
    decreases s.len(),
{
    if s.len() > 0 {
        lemma_sort_ordered(s.drop_last());
        lemma_insert_ordered(sort_by_instant(s.drop_last()), s.last());
    }
}

/// `records` in the order of the stable sort of `instants`, one per record.
pub fn sort_by_instants(records: &Vec<ManifestRecord>, instants: &Vec<i128>) -> (r: Vec<ManifestRecord>)
    requires
        instants@.len() == records@.len(),
    ensures
        r@ == sorted_records(records@, instants@),
{
    let mut order: Vec<(i128, usize)> = Vec::new();
    let mut j: usize = 0;
    while j < instants.len()
        invariant
            j <= instants@.len(),
            instants@.len() == records@.len(),
            order@.map_values(|p: (i128, usize)| (p.0, p.1 as int)) == sort_by_instant(
                keyed(instants@).subrange(0, j as int),
            ),
            forall|k: int| 0 <= k < order@.len() ==> (#[trigger] order@[k]).1 < records@.len(),
        decreases instants@.len() - j,
    {
        let x = instants[j];
        let ghost sorted = order@.map_values(|p: (i128, usize)| (p.0, p.1 as int));
        let mut p = order.len();
        while p > 0 && order[p - 1].0 > x
            invariant
                p <= order@.len(),
                sorted == order@.map_values(|q: (i128, usize)| (q.0, q.1 as int)),
                forall|k: int| p <= k < order@.len() ==> (#[trigger] order@[k]).0 > x,
            decreases p,
        {
            p -= 1;
        }
        proof {
            lemma_insert_at(sorted, (x, j as int), p as int);
            let ks = keyed(instants@).subrange(0, j + 1);
            assert(ks.drop_last() =~= keyed(instants@).subrange(0, j as int));
            assert(ks.last() == (x, j as int));
        }
        order.insert(p, (x, j));
        assert(order@.map_values(|q: (i128, usize)| (q.0, q.1 as int)) =~= sorted.insert(p as int, (x, j as int)));
        j += 1;
    }
    assert(keyed(instants@).subrange(0, instants@.len() as int) =~= keyed(instants@));
    let mut out: Vec<ManifestRecord> = Vec::new();
    let mut k: usize = 0;
    while k < order.len()
        invariant
            k <= order@.len(),
            order@.map_values(|p: (i128, usize)| (p.0, p.1 as int)) == sort_by_instant(keyed(instants@)),
            forall|m: int| 0 <= m < order@.len() ==> (#[trigger] order@[m]).1 < records@.len(),
            out@ == sorted_records(records@, instants@).subrange(0, k as int),
        decreases order@.len() - k,
    {
        assert(order@.map_values(|p: (i128, usize)| (p.0, p.1 as int))[k as int].1 == order@[k as int].1 as int);
        out.push(records[order[k].1].duplicate());
        assert(out@ =~= sorted_records(records@, instants@).subrange(0, k + 1));
        k += 1;
    }
    assert(sorted_records(records@, instants@).len() == order@.len());
    assert(out@ =~= sorted_records(records@, instants@));
    out
}

/// What sorting records by timestamp gives: the stable sort by instant
/// when every timestamp parses, otherwise an error naming the first that
/// does not.
pub open spec fn sorted_by_ts(records: Seq<ManifestRecord>) -> Result<Seq<ManifestRecord>, ErrorView> {
    if all_parse(records, records.len() as int) {
        Ok(sorted_records(records, parsed_instants(records)))
    } else {
        Err(ErrorView::InvalidTimestamp(records[first_unparsed(records)].ts@))
    }
}

/// The records in timestamp order, equal instants keeping their order; see
/// `sorted_by_ts`.
pub fn sort_records_by_ts(records: &Vec<ManifestRecord>) -> (r: Result<Vec<ManifestRecord>, BackupError>)
    ensures
        outcome(r) == sorted_by_ts(records@),
{
    let mut instants: Vec<i128> = Vec::new();
    let mut k: usize = 0;
    while k < records.len()
        invariant
            k <= records@.len(),
            instants@.len() == k,
            all_parse(records@, k as int),
            forall|j: int| 0 <= j < k ==> Some(#[trigger] instants@[j]) == rfc3339_nanos(records@[j].ts@),
        decreases records@.len() - k,
    {
        match parse_rfc3339(records[k].ts.as_str()) {
            None => {
                proof {
                    let f = first_unparsed(records@);
                    assert(0 <= k < records@.len() && all_parse(records@, k as int) && rfc3339_nanos(records@[k as int].ts@) is None);
                    if f < k {
                        assert(rfc3339_nanos(records@[f].ts@) is Some);
                    } else if f > k {
                        assert(rfc3339_nanos(records@[k as int].ts@) is Some);
                    }
                }
                return Err(BackupError::InvalidTimestamp { ts: records[k].ts.clone() });
            },
            Some(t) => {
                instants.push(t);
            },
        }
        k += 1;
    }
    assert(instants@ =~= parsed_instants(records@));
    Ok(sort_by_instants(records, &instants))
}

/// The plan for this month's backup: the manifest is put in timestamp
/// order; an anchor (`None`) when it is empty or the policy says so,
/// otherwise an incremental from the latest label (`Some`).
pub open spec fn month_plan(records: Seq<ManifestRecord>, input: PolicyInput) -> Result<Option<Seq<char>>, ErrorView> {
    match sorted_by_ts(records) {
        Err(e) => Err(e),
        Ok(sorted) => if sorted.len() == 0 {
            Ok(None)
        } else {
            match policy_outcome(sorted, input) {
                Err(e) => Err(e),
                Ok(SnapshotDecision::Anchor) => Ok(None),
                Ok(SnapshotDecision::Incremental) => match latest_spec(sorted) {
                    Err(e) => Err(e),
                    Ok(l) => Ok(Some(l)),
                },
            }
        },
    }
}

/// Decides this month's backup: `None` for an anchor, the parent label for
/// an incremental; see `month_plan`.
pub fn plan_month_backup(records: &Vec<ManifestRecord>, input: PolicyInput) -> (r: Result<Option<String>, BackupError>)
    ensures
        match r {
            Ok(None) => month_plan(records@, input) == Ok::<_, ErrorView>(None::<Seq<char>>),
            Ok(Some(l)) => month_plan(records@, input) == Ok::<_, ErrorView>(Some(l@)),
            Err(e) => month_plan(records@, input) == Err::<Option<Seq<char>>, _>(e@),
        },
{
    let sorted = match sort_records_by_ts(records) {
        Err(e) => {
            return Err(e);
        },
        Ok(s) => s,
    };
    if sorted.len() == 0 {
        return Ok(None);
    }
    match decide_snapshot_type(&sorted, input) {
        Err(e) => Err(e),
        Ok(SnapshotDecision::Anchor) => Ok(None),
        Ok(SnapshotDecision::Incremental) => match latest_label_from_records(&sorted) {
            Err(e) => Err(e),
            Ok(l) => Ok(Some(l)),
        },
    }
}

} // verus!
