//! The manifest: one record per produced artifact, oldest first, stored as
//! a tab-separated table with a fixed header row.

use vstd::prelude::*;
use crate::artifact::{ArtifactInfo, ArtifactType};
use crate::decimal::{decimal_of, lemma_decimal_round_trip, parse_count, parse_count_text, push_decimal};
use crate::error::{BackupError, ErrorView};
use crate::text::same_text;

verus! {

#[verifier::external_type_specification]
#[verifier::external_body]
pub struct ExCsvError(csv::Error);

/// The rows of a tab-separated table, as csv reads the bytes.
pub uninterp spec fn tsv_table(data: Seq<u8>) -> Option<Seq<Seq<Seq<char>>>>;

/// The bytes that csv writes for a tab-separated table.
pub uninterp spec fn tsv_text(rows: Seq<Seq<Seq<char>>>) -> Option<Seq<u8>>;

/// The view of a table of strings.
pub open spec fn table_view(rows: Seq<Vec<String>>) -> Seq<Seq<Seq<char>>> {
    rows.map_values(|row: Vec<String>| row@.map_values(|f: String| f@))
}

/// Relies on csv's reader (tab delimiter, no row set apart as header,
/// rows of equal length): every row of the table, which depends on the
/// bytes alone.
#[verifier::external_body]
fn split_table(data: &[u8]) -> (r: Result<Vec<Vec<String>>, csv::Error>)
    ensures
        match r {
            Ok(rows) => tsv_table(data@) == Some(table_view(rows@)),
            Err(_) => tsv_table(data@) is None,
        },
{
    let mut reader = csv::ReaderBuilder::new().delimiter(b'\t').has_headers(false).from_reader(
        data,
    );
    let mut rows = Vec::new();
    for record in reader.records() {
        rows.push(record?.iter().map(|f| f.to_string()).collect());
    }
    Ok(rows)
}

/// Relies on csv's writer (tab delimiter, fields quoted where needed) into
/// memory: the bytes of the rows, which depend on the rows alone.
#[verifier::external_body]
fn join_table(rows: &Vec<Vec<String>>) -> (r: Result<Vec<u8>, csv::Error>)
    ensures
        match r {
            Ok(bytes) => tsv_text(table_view(rows@)) == Some(bytes@),
            Err(_) => tsv_text(table_view(rows@)) is None,
        },
{
    let mut writer = csv::WriterBuilder::new().delimiter(b'\t').from_writer(Vec::new());
    for row in rows {
        writer.write_record(row)?;
    }
    writer.into_inner().map_err(|e| csv::Error::from(e.into_error()))
}

/// One artifact, as the manifest holds it.
#[derive(Debug, Clone, PartialEq, Eq)]
pub struct ManifestRecord {
    /// When the artifact was registered, RFC 3339.
    pub ts: String,
    pub label: String,
    /// `anchor` or `incremental`.
    pub record_type: String,
    /// The parent label of an incremental; empty for an anchor.
    pub parent: String,
    /// The size of the artifact file.
    pub bytes: u64,
    /// The hex SHA-256 of the artifact file, taken at registration.
    pub sha256: String,
    pub local_path: String,
    /// The remote key; empty until the artifact is uploaded.
    pub object_key: String,
}

/// The view of a `ManifestRecord`.
pub struct RecordView {
    pub ts: Seq<char>,
    pub label: Seq<char>,
    pub record_type: Seq<char>,
    pub parent: Seq<char>,
    pub bytes: u64,
    pub sha256: Seq<char>,
    pub local_path: Seq<char>,
    pub object_key: Seq<char>,
}

impl View for ManifestRecord {
    type V = RecordView;

    open spec fn view(&self) -> RecordView {
        RecordView {
            ts: self.ts@,
            label: self.label@,
            record_type: self.record_type@,
            parent: self.parent@,
            bytes: self.bytes,
            sha256: self.sha256@,
            local_path: self.local_path@,
            object_key: self.object_key@,
        }
    }
}

/// The views of a sequence of records.
pub open spec fn records_view(s: Seq<ManifestRecord>) -> Seq<RecordView> {
    s.map_values(|r: ManifestRecord| r@)
}

/// `anchor`
pub open spec fn anchor_word() -> Seq<char> {
    seq!['a', 'n', 'c', 'h', 'o', 'r']
}

/// `incremental`
pub open spec fn incremental_word() -> Seq<char> {
    seq!['i', 'n', 'c', 'r', 'e', 'm', 'e', 'n', 't', 'a', 'l']
}

/// Whether a record is an anchor.
pub open spec fn is_anchor(r: ManifestRecord) -> bool {
    r.record_type@ == anchor_word()
}

impl ManifestRecord {
    /// A copy of the record, equal to it.
    pub fn duplicate(&self) -> (r: ManifestRecord)
        ensures
            r == *self,
    {
        ManifestRecord {
            ts: self.ts.clone(),
            label: self.label.clone(),
            record_type: self.record_type.clone(),
            parent: self.parent.clone(),
            bytes: self.bytes,
            sha256: self.sha256.clone(),
            local_path: self.local_path.clone(),
            object_key: self.object_key.clone(),
        }
    }

    /// Whether the record is an anchor.
    pub fn is_anchor(&self) -> (r: bool)
        ensures
            r == is_anchor(*self),
    {
        proof {
            reveal_strlit("anchor");
            assert("anchor"@ =~= anchor_word());
        }
        same_text(self.record_type.as_str(), "anchor")
    }
}

/// The eight column names, in order.
pub open spec fn header_fields() -> Seq<Seq<char>> {
    seq![
        seq!['t', 's'],
        seq!['l', 'a', 'b', 'e', 'l'],
        seq!['t', 'y', 'p', 'e'],
        seq!['p', 'a', 'r', 'e', 'n', 't'],
        seq!['b', 'y', 't', 'e', 's'],
        seq!['s', 'h', 'a', '2', '5', '6'],
        seq!['l', 'o', 'c', 'a', 'l', '_', 'p', 'a', 't', 'h'],
        seq!['o', 'b', 'j', 'e', 'c', 't', '_', 'k', 'e', 'y'],
    ]
}

/// The fields of a record, in column order.
pub open spec fn fields_of(r: RecordView) -> Seq<Seq<char>> {
    seq![
        r.ts,
        r.label,
        r.record_type,
        r.parent,
        decimal_of(r.bytes as nat),
        r.sha256,
        r.local_path,
        r.object_key,
    ]
}

/// The record that a data row holds: eight fields, a known type, and a
/// byte count (see `parse_count`).
pub open spec fn decode_row(row: Seq<Seq<char>>) -> Option<RecordView> {
    if row.len() == 8 && (row[2] == anchor_word() || row[2] == incremental_word()) && parse_count(
        row[4],
    ) is Some {
        Some(
            RecordView {
                ts: row[0],
                label: row[1],
                record_type: row[2],
                parent: row[3],
                bytes: parse_count(row[4])->0,
                sha256: row[5],
                local_path: row[6],
                object_key: row[7],
            },
        )
    } else {
        None
    }
}

/// The records of the first `n` data rows, or the first row that fails.
pub open spec fn decode_rows(rows: Seq<Seq<Seq<char>>>, n: nat) -> Result<
    Seq<RecordView>,
    ErrorView,
>
    decreases n,
{
    if n == 0 {
        Ok(Seq::empty())
    } else {
        match decode_rows(rows, (n - 1) as nat) {
            Err(e) => Err(e),
            Ok(done) => match decode_row(rows[n - 1]) {
                None => Err(ErrorView::MalformedRow((n - 1) as nat)),
                Some(r) => Ok(done.push(r)),
            },
        }
    }
}

/// The records of a table: none for an empty table; otherwise the first
/// row must be the header and every following row must decode.
pub open spec fn decode_table(rows: Seq<Seq<Seq<char>>>) -> Result<Seq<RecordView>, ErrorView> {
    if rows.len() == 0 {
        Ok(Seq::empty())
    } else if rows[0] != header_fields() {
        Err(ErrorView::MalformedManifest)
    } else {
        decode_rows(rows.drop_first(), (rows.len() - 1) as nat)
    }
}

/// The rows of a table that holds `records`, with the header row first
/// when `with_header`.
pub open spec fn table_of(records: Seq<RecordView>, with_header: bool) -> Seq<Seq<Seq<char>>> {
    let body = records.map_values(|r: RecordView| fields_of(r));
    if with_header {
        seq![header_fields()] + body
    } else {
        body
    }
}

fn owned(s: &str) -> (r: String)
    ensures
        r@ == s@,
{
    s.to_owned()
}

/// The header row.
pub fn header_row() -> (r: Vec<String>)
    ensures
        r@.len() == 8,
        r@.map_values(|f: String| f@) == header_fields(),
{
    proof {
        reveal_strlit("ts");
        reveal_strlit("label");
        reveal_strlit("type");
        reveal_strlit("parent");
        reveal_strlit("bytes");
        reveal_strlit("sha256");
        reveal_strlit("local_path");
        reveal_strlit("object_key");
    }
    let r = vec![
        owned("ts"),
        owned("label"),
        owned("type"),
        owned("parent"),
        owned("bytes"),
        owned("sha256"),
        owned("local_path"),
        owned("object_key"),
    ];
    assert(r@[0]@ =~= seq!['t', 's']);
    assert(r@[1]@ =~= seq!['l', 'a', 'b', 'e', 'l']);
    assert(r@[2]@ =~= seq!['t', 'y', 'p', 'e']);
    assert(r@[3]@ =~= seq!['p', 'a', 'r', 'e', 'n', 't']);
    assert(r@[4]@ =~= seq!['b', 'y', 't', 'e', 's']);
    assert(r@[5]@ =~= seq!['s', 'h', 'a', '2', '5', '6']);
    assert(r@[6]@ =~= seq!['l', 'o', 'c', 'a', 'l', '_', 'p', 'a', 't', 'h']);
    assert(r@[7]@ =~= seq!['o', 'b', 'j', 'e', 'c', 't', '_', 'k', 'e', 'y']);
    assert(r@.map_values(|f: String| f@) =~= header_fields());
    r
}

proof fn lemma_decode_rows_failure_stays(rows: Seq<Seq<Seq<char>>>, n: nat, m: nat)
    requires
        n <= m,
        decode_rows(rows, n) is Err,
    ensures
        decode_rows(rows, m) == decode_rows(rows, n),
    decreases m - n,
{
    if n < m {
        lemma_decode_rows_failure_stays(rows, n, (m - 1) as nat);
    }
}

/// The fields of a record, in column order.
pub fn record_fields(r: &ManifestRecord) -> (f: Vec<String>)
    ensures
        f@.map_values(|x: String| x@) == fields_of(r@),
{
    let mut count = String::new();
    push_decimal(&mut count, r.bytes);
    assert(count@ =~= decimal_of(r.bytes as nat));
    let f = vec![
        r.ts.clone(),
        r.label.clone(),
        r.record_type.clone(),
        r.parent.clone(),
        count,
        r.sha256.clone(),
        r.local_path.clone(),
        r.object_key.clone(),
    ];
    assert(f@.map_values(|x: String| x@) =~= fields_of(r@));
    f
}

/// Decodes one data row.
fn record_from_row(row: &Vec<String>) -> (r: Option<ManifestRecord>)
    ensures
        match r {
            Some(rec) => decode_row(row@.map_values(|f: String| f@)) == Some(rec@),
            None => decode_row(row@.map_values(|f: String| f@)) is None,
        },
{
    let ghost v = row@.map_values(|f: String| f@);
    if row.len() != 8 {
        return None;
    }
    proof {
        reveal_strlit("anchor");
        reveal_strlit("incremental");
        assert("anchor"@ =~= anchor_word());
        assert("incremental"@ =~= incremental_word());
    }
    let known = same_text(row[2].as_str(), "anchor") || same_text(row[2].as_str(), "incremental");
    if !known {
        return None;
    }
    match parse_count_text(row[4].as_str()) {
        None => None,
        Some(bytes) => Some(
            ManifestRecord {
                ts: row[0].clone(),
                label: row[1].clone(),
                record_type: row[2].clone(),
                parent: row[3].clone(),
                bytes,
                sha256: row[5].clone(),
                local_path: row[6].clone(),
                object_key: row[7].clone(),
            },
        ),
    }
}

/// Decodes a whole table: header row first, then one record per row.
pub fn records_from_table(rows: &Vec<Vec<String>>) -> (r: Result<Vec<ManifestRecord>, BackupError>)
    ensures
        match r {
            Ok(v) => decode_table(table_view(rows@)) == Ok::<_, ErrorView>(records_view(v@)),
            Err(e) => decode_table(table_view(rows@)) == Err::<Seq<RecordView>, _>(e@),
        },
{
    let ghost t = table_view(rows@);
    let mut out: Vec<ManifestRecord> = Vec::new();
    if rows.len() == 0 {
        assert(records_view(out@) =~= Seq::<RecordView>::empty());
        return Ok(out);
    }
    let header = header_row();
    let mut same = true;
    if rows[0].len() != 8 {
        same = false;
    } else {
        let mut k: usize = 0;
        while k < 8
            invariant
                rows@.len() > 0,
                rows@[0]@.len() == 8,
                header@.len() == 8,
                header@.map_values(|f: String| f@) == header_fields(),
                k <= 8,
                same ==> forall|j: int| 0 <= j < k ==> rows@[0]@[j]@ == header@[j]@,
                !same ==> rows@[0]@.map_values(|f: String| f@) != header_fields(),
            decreases 8 - k,
        {
            if !same_text(rows[0][k].as_str(), header[k].as_str()) {
                assert(rows@[0]@.map_values(|f: String| f@)[k as int] != header_fields()[k as int]);
                same = false;
            }
            k += 1;
        }
        if same {
            assert(rows@[0]@.map_values(|f: String| f@) =~= header_fields());
        }
    }
    assert(t[0] == rows@[0]@.map_values(|f: String| f@));
    if !same {
        return Err(BackupError::MalformedManifest);
    }
    let ghost body = t.drop_first();
    assert(records_view(out@) =~= Seq::<RecordView>::empty());
    assert(decode_rows(body, 0) == Ok::<_, ErrorView>(Seq::<RecordView>::empty()));
    let mut i: usize = 1;
    while i < rows.len()
        invariant
            t == table_view(rows@),
            t.len() == rows@.len(),
            t[0] == header_fields(),
            body == t.drop_first(),
            1 <= i <= rows@.len(),
            decode_rows(body, (i - 1) as nat) == Ok::<_, ErrorView>(records_view(out@)),
        decreases rows@.len() - i,
    {
        assert(body[i - 1] == rows@[i as int]@.map_values(|f: String| f@));
        match record_from_row(&rows[i]) {
            None => {
                proof {
                    assert(decode_rows(body, i as nat) == Err::<Seq<RecordView>, ErrorView>(
                        ErrorView::MalformedRow((i - 1) as nat),
                    ));
                    lemma_decode_rows_failure_stays(body, i as nat, (rows@.len() - 1) as nat);
                    assert(t.len() == rows@.len());
                    assert(t[0] == header_fields());
                    assert(decode_table(t) == decode_rows(body, (rows@.len() - 1) as nat));
                }
                return Err(BackupError::MalformedRow { row: i - 1 });
            },
            Some(rec) => {
                let ghost prev = out@;
                out.push(rec);
                assert(records_view(out@) =~= records_view(prev).push(rec@));
                i += 1;
            },
        }
    }
    Ok(out)
}

/// The records of a manifest table held in `data`.
pub fn parse_manifest(data: &[u8]) -> (r: Result<Vec<ManifestRecord>, BackupError>)
    ensures
        match tsv_table(data@) {
            None => r matches Err(e) && e@ == ErrorView::MalformedManifest,
            Some(t) => match r {
                Ok(v) => decode_table(t) == Ok::<_, ErrorView>(records_view(v@)),
                Err(e) => decode_table(t) == Err::<Seq<RecordView>, _>(e@),
            },
        },
{
    match split_table(data) {
        Err(_) => Err(BackupError::MalformedManifest),
        Ok(rows) => records_from_table(&rows),
    }
}

/// The table text of `records`, with the header row first when
/// `with_header` (a whole manifest) and without it (rows to append).
pub fn encode_records(records: &Vec<ManifestRecord>, with_header: bool) -> (r: Result<
    Vec<u8>,
    BackupError,
>)
    ensures
        match r {
            Ok(bytes) => tsv_text(table_of(records_view(records@), with_header)) == Some(bytes@),
            Err(e) => e@ == ErrorView::MalformedManifest && tsv_text(
                table_of(records_view(records@), with_header),
            ) is None,
        },
{
    let mut rows: Vec<Vec<String>> = Vec::new();
    if with_header {
        rows.push(header_row());
    }
    let ghost start = rows@;
    let mut i: usize = 0;
    while i < records.len()
        invariant
            table_view(start) == (if with_header {
                seq![header_fields()]
            } else {
                Seq::<Seq<Seq<char>>>::empty()
            }),
            i <= records@.len(),
            table_view(rows@) == table_view(start) + records_view(records@).subrange(
                0,
                i as int,
            ).map_values(|x: RecordView| fields_of(x)),
        decreases records@.len() - i,
    {
        let ghost prev = rows@;
        rows.push(record_fields(&records[i]));
        assert(table_view(rows@) =~= table_view(prev).push(fields_of(records@[i as int]@)));
        assert(records_view(records@).subrange(0, i + 1).map_values(|x: RecordView| fields_of(x))
            =~= records_view(records@).subrange(0, i as int).map_values(|x: RecordView| fields_of(x)).push(fields_of(records@[i as int]@)));
        i += 1;
    }
    assert(records_view(records@).subrange(0, records@.len() as int) =~= records_view(records@));
    assert(table_view(rows@) =~= table_of(records_view(records@), with_header));
    match join_table(&rows) {
        Ok(bytes) => Ok(bytes),
        Err(_) => Err(BackupError::MalformedManifest),
    }
}

/// Decoding the fields of a record of a known type gives the record back.
pub proof fn lemma_row_round_trip(r: RecordView)
    requires
        r.record_type == anchor_word() || r.record_type == incremental_word(),
    ensures
        decode_row(fields_of(r)) == Some(r),
{
    lemma_decimal_round_trip(r.bytes);
}

/// The record that registers an artifact: its label, kind and parent come
/// from its filename; the time, size, hash and path are given; it is not
/// uploaded yet.
pub fn registration_record(
    info: &ArtifactInfo,
    ts: String,
    bytes: u64,
    sha256: String,
    local_path: String,
) -> (r: ManifestRecord)
    ensures
        r.ts == ts,
        r.label@ == info.label@,
        r.record_type@ == (match info.artifact_type {
            ArtifactType::Anchor => anchor_word(),
            ArtifactType::Incremental => incremental_word(),
        }),
        r.parent@ == (match info.parent {
            Some(p) => p@,
            None => Seq::<char>::empty(),
        }),
        r.bytes == bytes,
        r.sha256 == sha256,
        r.local_path == local_path,
        r.object_key@ == Seq::<char>::empty(),
{
    proof {
        reveal_strlit("anchor");
        reveal_strlit("incremental");
        assert("anchor"@ =~= anchor_word());
        assert("incremental"@ =~= incremental_word());
    }
    let record_type = match info.artifact_type {
        ArtifactType::Anchor => owned("anchor"),
        ArtifactType::Incremental => owned("incremental"),
    };
    let parent = match &info.parent {
        Some(p) => p.clone(),
        None => String::new(),
    };
    ManifestRecord {
        ts,
        label: info.label.clone(),
        record_type,
        parent,
        bytes,
        sha256,
        local_path,
        object_key: String::new(),
    }
}

/// Where the manifest table lives.
pub struct ManifestStore {
    path: String,
}

impl ManifestStore {
    /// The location of the table.
    pub closed spec fn location(&self) -> Seq<char> {
        self.path@
    }

    /// A store for the table at `path`.
    pub fn new(path: &str) -> (r: ManifestStore)
        ensures
            r.location() == path@,
    {
        ManifestStore { path: path.to_owned() }
    }

    /// The location of the table.
    pub fn path(&self) -> (r: &str)
        ensures
            r@ == self.location(),
    {
        self.path.as_str()
    }
}

} // verus!
