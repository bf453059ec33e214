use vstd::prelude::*;

verus! {

use vstd::string::StringExecFns;
use crate::hashing::{record_uuid, spec_record_uuid};
use crate::manifest::{ColumnDefinition, Manifest, TableEntry};
use crate::text::{join, spec_join, views_of};
use crate::time::{normalize_date, spec_normalize_date};

/// A staged row: the table it is bound for and its column values, in the
/// order they were set.
pub struct DataPoint {
    pub table_name: String,
    pub columns: Vec<(String, String)>,
}

/// The view of a column list: the pairs as character sequences.
pub open spec fn pairs_view(cols: Seq<(String, String)>) -> Seq<(Seq<char>, Seq<char>)> {
    cols.map_values(|p: (String, String)| (p.0@, p.1@))
}

/// The value of the last attribute called `key`, or empty when there is none;
/// a repeated attribute overwrites its earlier value.
pub open spec fn spec_attr_last(attrs: Seq<(String, String)>, key: Seq<char>) -> Seq<char>
    decreases attrs.len(),
{
    if attrs.len() == 0 {
        Seq::empty()
    } else if attrs.last().0@ == key {
        attrs.last().1@
    } else {
        spec_attr_last(attrs.drop_last(), key)
    }
}

/// Reads the attribute called `key`, the last occurrence winning.
pub fn attr_value(attrs: &Vec<(String, String)>, key: &str) -> (r: String)
    ensures
        r@ == spec_attr_last(attrs@, key@),
{
    let needle = key.to_owned();
    let mut out = String::new();
    let n = attrs.len();
    for i in 0..n
        invariant
            needle@ == key@,
            n == attrs@.len(),
            out@ == spec_attr_last(attrs@.take(i as int), key@),
    {
        if attrs[i].0 == needle {
            out = attrs[i].1.clone();
        }
        proof {
            assert(attrs@.take(i as int + 1).drop_last() =~= attrs@.take(i as int));
        }
    }
    proof {
        assert(attrs@.take(n as int) =~= attrs@);
    }
    out
}

/// One entry of the record dispatch table: records of domain type `hk_id` go
/// to `table`.`column`.
pub struct RecordMapping {
    pub hk_id: String,
    pub table: String,
    pub column: String,
}

/// Whether a manifest column captures plain record values: it names a domain
/// record type, and its extraction source is the default or `value`.
pub open spec fn spec_maps_records(col: ColumnDefinition) -> bool {
    &&& col.hk_identifier is Some
    &&& (col.extraction_source is None || col.extraction_source->0@ == "value"@)
}

/// The dispatch entries one table contributes, in column order.
pub open spec fn spec_table_mappings(name: Seq<char>, cols: Seq<ColumnDefinition>) -> Seq<
    (Seq<char>, Seq<char>, Seq<char>),
>
    decreases cols.len(),
{
    if cols.len() == 0 {
        Seq::empty()
    } else {
        spec_table_mappings(name, cols.drop_last()) + (if spec_maps_records(cols.last()) {
            seq![(cols.last().hk_identifier->0@, name, cols.last().field_name@)]
        } else {
            Seq::<(Seq<char>, Seq<char>, Seq<char>)>::empty()
        })
    }
}

/// The dispatch entries of the whole manifest, in table order.
pub open spec fn spec_record_mappings(tables: Seq<TableEntry>) -> Seq<
    (Seq<char>, Seq<char>, Seq<char>),
>
    decreases tables.len(),
{
    if tables.len() == 0 {
        Seq::empty()
    } else {
        spec_record_mappings(tables.drop_last()) + spec_table_mappings(
            tables.last().name@,
            tables.last().config.columns@,
        )
    }
}

/// The view of a dispatch table.
pub open spec fn mappings_view(ms: Seq<RecordMapping>) -> Seq<(Seq<char>, Seq<char>, Seq<char>)> {
    ms.map_values(|m: RecordMapping| (m.hk_id@, m.table@, m.column@))
}

/// Builds the record dispatch table of a manifest: one entry per column that
/// captures plain record values, keyed by its domain record type.
pub fn build_record_mappings(manifest: &Manifest) -> (r: Vec<RecordMapping>)
    ensures
        mappings_view(r@) == spec_record_mappings(manifest.tables@),
{
    let mut out: Vec<RecordMapping> = Vec::new();
    let value_lit = "value".to_owned();
    let nt = manifest.tables.len();
    for t in 0..nt
        invariant
            value_lit@ == "value"@,
            nt == manifest.tables@.len(),
            mappings_view(out@) == spec_record_mappings(manifest.tables@.take(t as int)),
    {
        let table = &manifest.tables[t];
        let nc = table.config.columns.len();
        for c in 0..nc
            invariant
                value_lit@ == "value"@,
                nt == manifest.tables@.len(),
                t < nt,
                table == manifest.tables@[t as int],
                nc == table.config.columns@.len(),
                mappings_view(out@) == spec_record_mappings(manifest.tables@.take(t as int))
                    + spec_table_mappings(table.name@, table.config.columns@.take(c as int)),
        {
            let ghost before = out@;
            let col = &table.config.columns[c];
            let eligible = match &col.hk_identifier {
                Some(_) => match &col.extraction_source {
                    None => true,
                    Some(s) => *s == value_lit,
                },
                None => false,
            };
            if eligible {
                let hk = match &col.hk_identifier {
                    Some(h) => h.clone(),
                    None => String::new(),
                };
                out.push(
                    RecordMapping {
                        hk_id: hk,
                        table: table.name.clone(),
                        column: col.field_name.clone(),
                    },
                );
            }
            proof {
                assert(table.config.columns@.take(c as int + 1).drop_last()
                    =~= table.config.columns@.take(c as int));
                if eligible {
                    assert(mappings_view(out@) =~= mappings_view(before).push(
                        (col.hk_identifier->0@, table.name@, col.field_name@),
                    ));
                }
                assert(mappings_view(out@) =~= spec_record_mappings(
                    manifest.tables@.take(t as int),
                ) + spec_table_mappings(table.name@, table.config.columns@.take(c as int + 1)));
            }
        }
        proof {
            assert(table.config.columns@.take(nc as int) =~= table.config.columns@);
            assert(manifest.tables@.take(t as int + 1).drop_last() =~= manifest.tables@.take(
                t as int,
            ));
            assert(manifest.tables@.take(t as int + 1).last() == manifest.tables@[t as int]);
        }
    }
    proof {
        assert(manifest.tables@.take(nt as int) =~= manifest.tables@);
    }
    out
}

/// The first dispatch entry for the domain type `hk`, if any.
pub open spec fn spec_lookup_mapping(
    ms: Seq<(Seq<char>, Seq<char>, Seq<char>)>,
    hk: Seq<char>,
) -> Option<(Seq<char>, Seq<char>, Seq<char>)>
    decreases ms.len(),
{
    if ms.len() == 0 {
        None
    } else if ms.first().0 == hk {
        Some(ms.first())
    } else {
        spec_lookup_mapping(ms.drop_first(), hk)
    }
}

/// Finds the first dispatch entry for `hk`.
fn lookup_mapping_index(ms: &Vec<RecordMapping>, hk: &String) -> (r: Option<usize>)
    ensures
        r matches Some(i) ==> i < ms@.len() && spec_lookup_mapping(mappings_view(ms@), hk@)
            == Some((ms@[i as int].hk_id@, ms@[i as int].table@, ms@[i as int].column@)),
        r is None ==> spec_lookup_mapping(mappings_view(ms@), hk@) is None,
{
    let n = ms.len();
    proof {
        assert(mappings_view(ms@).skip(0) =~= mappings_view(ms@));
    }
    for i in 0..n
        invariant
            n == ms@.len(),
            spec_lookup_mapping(mappings_view(ms@), hk@) == spec_lookup_mapping(
                mappings_view(ms@).skip(i as int),
                hk@,
            ),
    {
        proof {
            assert(mappings_view(ms@).skip(i as int).drop_first() =~= mappings_view(ms@).skip(
                i as int + 1,
            ));
        }
        if ms[i].hk_id == *hk {
            return Some(i);
        }
    }
    None
}

/// The columns of a staged biometric record: its content-hash identifier,
/// the three normalized dates, and the mapped column holding the value.
pub open spec fn spec_record_columns(
    table: Seq<char>,
    column: Seq<char>,
    creation: Seq<char>,
    start: Seq<char>,
    end: Seq<char>,
    value: Seq<char>,
) -> Seq<(Seq<char>, Seq<char>)> {
    let c = spec_normalize_date(creation);
    let s = spec_normalize_date(start);
    let e = spec_normalize_date(end);
    seq![
        ("uuid"@, spec_record_uuid(table, column, s, e, value)),
        ("creation_date"@, c),
        ("start_date"@, s),
        ("end_date"@, e),
        (column, value),
    ]
}

/// What a `Record` element yields: `None` when its domain type is not mapped,
/// otherwise a staged row for the mapped table.
pub open spec fn spec_extract_record(
    ms: Seq<(Seq<char>, Seq<char>, Seq<char>)>,
    attrs: Seq<(String, String)>,
) -> Option<(Seq<char>, Seq<(Seq<char>, Seq<char>)>)> {
    match spec_lookup_mapping(ms, spec_attr_last(attrs, "type"@)) {
        Some(m) => Some(
            (
                m.1,
                spec_record_columns(
                    m.1,
                    m.2,
                    spec_attr_last(attrs, "creationDate"@),
                    spec_attr_last(attrs, "startDate"@),
                    spec_attr_last(attrs, "endDate"@),
                    spec_attr_last(attrs, "value"@),
                ),
            ),
        ),
        None => None,
    }
}

/// Turns one `Record` element, given as its attribute list, into a staged
/// row; its identifier is the content hash over the normalized dates.
pub fn extract_record_data(attrs: &Vec<(String, String)>, ms: &Vec<RecordMapping>) -> (r: Option<
    DataPoint,
>)
    ensures
        r is Some <==> spec_extract_record(mappings_view(ms@), attrs@) is Some,
        r matches Some(dp) ==> {
            let ex = spec_extract_record(mappings_view(ms@), attrs@)->0;
            dp.table_name@ == ex.0 && pairs_view(dp.columns@) == ex.1
        },
{
    let hk_type = attr_value(attrs, "type");
    let idx = match lookup_mapping_index(ms, &hk_type) {
        Some(i) => i,
        None => { return None; },
    };
    let creation = normalize_date(attr_value(attrs, "creationDate").as_str());
    let start = normalize_date(attr_value(attrs, "startDate").as_str());
    let end = normalize_date(attr_value(attrs, "endDate").as_str());
    let value = attr_value(attrs, "value");
    let uuid = record_uuid(
        ms[idx].table.as_str(),
        ms[idx].column.as_str(),
        start.as_str(),
        end.as_str(),
        value.as_str(),
    );
    let mut columns: Vec<(String, String)> = Vec::new();
    columns.push(("uuid".to_owned(), uuid));
    columns.push(("creation_date".to_owned(), creation));
    columns.push(("start_date".to_owned(), start));
    columns.push(("end_date".to_owned(), end));
    columns.push((ms[idx].column.clone(), value));
    let dp = DataPoint { table_name: ms[idx].table.clone(), columns };
    proof {
        let ex = spec_extract_record(mappings_view(ms@), attrs@)->0;
        assert(pairs_view(dp.columns@) =~= ex.1);
    }
    Some(dp)
}

/// The `INSERT OR IGNORE` statement for one staged row: every insert
/// tolerates an already-present row, so replaying input cannot duplicate it.
pub open spec fn spec_insert_sql(table: Seq<char>, cols: Seq<(Seq<char>, Seq<char>)>) -> Seq<
    char,
> {
    "INSERT OR IGNORE INTO "@ + table + " ("@ + spec_join(spec_col_names(cols), ", "@)
        + ") VALUES ("@ + spec_join(spec_q_marks(cols), ", "@) + ")"@
}

/// The column names of a staged row.
pub open spec fn spec_col_names(cols: Seq<(Seq<char>, Seq<char>)>) -> Seq<Seq<char>> {
    cols.map_values(|p: (Seq<char>, Seq<char>)| p.0)
}

/// The values of a staged row, in column order.
pub open spec fn spec_col_values(cols: Seq<(Seq<char>, Seq<char>)>) -> Seq<Seq<char>> {
    cols.map_values(|p: (Seq<char>, Seq<char>)| p.1)
}

/// One bind mark per column.
pub open spec fn spec_q_marks(cols: Seq<(Seq<char>, Seq<char>)>) -> Seq<Seq<char>> {
    cols.map_values(|p: (Seq<char>, Seq<char>)| "?"@)
}

/// Builds the parametrized `INSERT OR IGNORE` statement for one staged row
/// and the bind values in matching order.
pub fn insert_sql(dp: &DataPoint) -> (r: (String, Vec<String>))
    ensures
        r.0@ == spec_insert_sql(dp.table_name@, pairs_view(dp.columns@)),
        views_of(r.1@) == spec_col_values(pairs_view(dp.columns@)),
{
    let mut names: Vec<String> = Vec::new();
    let mut marks: Vec<String> = Vec::new();
    let mut values: Vec<String> = Vec::new();
    let n = dp.columns.len();
    for i in 0..n
        invariant
            n == dp.columns@.len(),
            views_of(names@) == spec_col_names(pairs_view(dp.columns@.take(i as int))),
            views_of(marks@) == spec_q_marks(pairs_view(dp.columns@.take(i as int))),
            views_of(values@) == spec_col_values(pairs_view(dp.columns@.take(i as int))),
    {
        let ghost bn = names@;
        let ghost bm = marks@;
        let ghost bv = values@;
        names.push(dp.columns[i].0.clone());
        marks.push("?".to_owned());
        values.push(dp.columns[i].1.clone());
        proof {
            let pair = (dp.columns@[i as int].0@, dp.columns@[i as int].1@);
            let prefix = pairs_view(dp.columns@.take(i as int));
            assert(pairs_view(dp.columns@.take(i as int + 1)) =~= prefix.push(pair));
            assert(spec_col_names(prefix.push(pair)) =~= spec_col_names(prefix).push(pair.0));
            assert(spec_q_marks(prefix.push(pair)) =~= spec_q_marks(prefix).push("?"@));
            assert(spec_col_values(prefix.push(pair)) =~= spec_col_values(prefix).push(pair.1));
            assert(views_of(names@) =~= bn.map_values(|p: String| p@).push(pair.0));
            assert(views_of(marks@) =~= bm.map_values(|p: String| p@).push("?"@));
            assert(views_of(values@) =~= bv.map_values(|p: String| p@).push(pair.1));
        }
    }
    proof {
        assert(dp.columns@.take(n as int) =~= dp.columns@);
    }
    let joined_names = join(&names, ", ");
    let joined_marks = join(&marks, ", ");
    let mut sql = String::new();
    sql.append("INSERT OR IGNORE INTO ");
    sql.append(dp.table_name.as_str());
    sql.append(" (");
    sql.append(joined_names.as_str());
    sql.append(") VALUES (");
    sql.append(joined_marks.as_str());
    sql.append(")");
    proof {
        assert(sql@ =~= spec_insert_sql(dp.table_name@, pairs_view(dp.columns@)));
    }
    (sql, values)
}

/// The staged rows of one table.
pub struct TableBuffer {
    pub table: String,
    pub rows: Vec<DataPoint>,
}

/// The view of one staged row.
pub open spec fn dp_view(dp: DataPoint) -> (Seq<char>, Seq<(Seq<char>, Seq<char>)>) {
    (dp.table_name@, pairs_view(dp.columns@))
}

/// The views of a row list.
pub open spec fn rows_views(rows: Seq<DataPoint>) -> Seq<(Seq<char>, Seq<(Seq<char>, Seq<char>)>)> {
    rows.map_values(|dp: DataPoint| dp_view(dp))
}

/// The first buffer bound for `name`, if any.
pub open spec fn spec_buffer_index(bufs: Seq<TableBuffer>, name: Seq<char>) -> Option<int>
    decreases bufs.len(),
{
    if bufs.len() == 0 {
        None
    } else if bufs.first().table@ == name {
        Some(0)
    } else {
        match spec_buffer_index(bufs.drop_first(), name) {
            Some(i) => Some(i + 1),
            None => None,
        }
    }
}

/// Rows currently staged over all buffers.
pub open spec fn spec_buffered_rows(bufs: Seq<TableBuffer>) -> int
    decreases bufs.len(),
{
    if bufs.len() == 0 {
        0int
    } else {
        spec_buffered_rows(bufs.drop_last()) + bufs.last().rows@.len()
    }
}

/// The batch size the manifest asks for, with its default.
pub open spec fn spec_batch_size(m: Manifest) -> int {
    match m.settings {
        Some(s) => match s.batch_size {
            Some(b) => b as int,
            None => 5000,
        },
        None => 5000,
    }
}

/// The streaming ingestion state: the record dispatch table, one staged-row
/// buffer per manifest table, the flush threshold, and the running count of
/// rows handed out for flushing.
pub struct Ingestor {
    pub mappings: Vec<RecordMapping>,
    pub buffers: Vec<TableBuffer>,
    pub batch_size: usize,
    pub total: usize,
}

impl Ingestor {
    /// One buffer per manifest table, in manifest order, all empty.
    pub open spec fn buffers_match(bufs: Seq<TableBuffer>, tables: Seq<TableEntry>) -> bool {
        &&& bufs.len() == tables.len()
        &&& forall|i: int| 0 <= i < bufs.len() ==> bufs[i].table@ == tables[i].name@
    }

    /// Sets up ingestion for a manifest: the dispatch table is built, every
    /// buffer starts empty, nothing is counted yet.
    pub fn new(manifest: &Manifest) -> (r: Ingestor)
        ensures
            mappings_view(r.mappings@) == spec_record_mappings(manifest.tables@),
            Self::buffers_match(r.buffers@, manifest.tables@),
            forall|i: int| 0 <= i < r.buffers@.len() ==> r.buffers@[i].rows@.len() == 0,
            r.batch_size == spec_batch_size(*manifest),
            r.total == 0,
    {
        let batch_size = match &manifest.settings {
            Some(s) => match s.batch_size {
                Some(b) => b,
                None => 5000,
            },
            None => 5000,
        };
        let mut buffers: Vec<TableBuffer> = Vec::new();
        let nt = manifest.tables.len();
        for t in 0..nt
            invariant
                nt == manifest.tables@.len(),
                buffers@.len() == t,
                forall|i: int| 0 <= i < t ==> buffers@[i].table@ == manifest.tables@[i].name@
                    && buffers@[i].rows@.len() == 0,
        {
            buffers.push(TableBuffer { table: manifest.tables[t].name.clone(), rows: Vec::new() });
        }
        Ingestor { mappings: build_record_mappings(manifest), buffers, batch_size, total: 0 }
    }

    /// Stages one row into the buffer of its table; a row bound for a table
    /// without a buffer is dropped. Nothing else moves.
    pub fn push_point(&mut self, dp: DataPoint)
        ensures
            final(self).mappings == old(self).mappings,
            final(self).batch_size == old(self).batch_size,
            final(self).total == old(self).total,
            final(self).buffers@.len() == old(self).buffers@.len(),
            match spec_buffer_index(old(self).buffers@, dp.table_name@) {
                Some(i) => {
                    &&& final(self).buffers@[i].table == old(self).buffers@[i].table
                    &&& final(self).buffers@[i].rows@ == old(self).buffers@[i].rows@.push(dp)
                    &&& forall|j: int|
                        0 <= j < old(self).buffers@.len() && j != i ==> final(self).buffers@[j]
                            == old(self).buffers@[j]
                },
                None => final(self).buffers@ == old(self).buffers@,
            },
    {
        match find_buffer_index(&self.buffers, &dp.table_name) {
            Some(i) => {
                let ghost before = self.buffers@;
                let mut entry = self.buffers.remove(i);
                entry.rows.push(dp);
                self.buffers.insert(i, entry);
                proof {
                    assert(forall|j: int|
                        0 <= j < before.len() && j != i ==> self.buffers@[j] == before[j]);
                }
            },
            None => {},
        }
    }

    /// Whether some buffer has reached the flush threshold.
    pub fn needs_flush(&self) -> (r: bool)
        ensures
            r == exists|i: int|
                0 <= i < self.buffers@.len() && self.buffers@[i].rows@.len()
                    >= self.batch_size,
    {
        let n = self.buffers.len();
        for i in 0..n
            invariant
                n == self.buffers@.len(),
                forall|j: int| 0 <= j < i ==> self.buffers@[j].rows@.len() < self.batch_size,
        {
            if self.buffers[i].rows.len() >= self.batch_size {
                return true;
            }
        }
        false
    }

    /// Hands every staged row out for flushing and counts them: the buffers
    /// keep their tables but are emptied, and the running total grows by the
    /// count — progress never decreases.
    pub fn take_batches(&mut self) -> (r: (Vec<TableBuffer>, usize))
        ensures
            final(self).mappings == old(self).mappings,
            final(self).batch_size == old(self).batch_size,
            r.0@ == old(self).buffers@,
            final(self).buffers@.len() == old(self).buffers@.len(),
            forall|i: int|
                0 <= i < old(self).buffers@.len() ==> final(self).buffers@[i].table == old(
                    self,
                ).buffers@[i].table && final(self).buffers@[i].rows@.len() == 0,
            r.1 == if spec_buffered_rows(old(self).buffers@) <= usize::MAX {
                spec_buffered_rows(old(self).buffers@)
            } else {
                usize::MAX as int
            },
            final(self).total == if old(self).total + r.1 <= usize::MAX {
                old(self).total + r.1
            } else {
                usize::MAX as int
            },
            final(self).total >= old(self).total,
    {
        let mut rest: Vec<TableBuffer> = Vec::new();
        core::mem::swap(&mut self.buffers, &mut rest);
        let ghost orig = rest@;
        let mut taken: Vec<TableBuffer> = Vec::new();
        let mut count: usize = 0;
        proof {
            assert(orig.take(0) =~= Seq::<TableBuffer>::empty());
            assert(orig.skip(0) =~= orig);
        }
        while rest.len() > 0
            invariant
                self.mappings == old(self).mappings,
                self.batch_size == old(self).batch_size,
                self.total == old(self).total,
                taken@.len() <= orig.len(),
                taken@ =~= orig.take(taken@.len() as int),
                rest@ =~= orig.skip(taken@.len() as int),
                self.buffers@.len() == taken@.len(),
                forall|j: int|
                    0 <= j < taken@.len() ==> self.buffers@[j].table == orig[j].table
                        && self.buffers@[j].rows@.len() == 0,
                count == if spec_buffered_rows(orig.take(taken@.len() as int)) <= usize::MAX {
                    spec_buffered_rows(orig.take(taken@.len() as int))
                } else {
                    usize::MAX as int
                },
            decreases rest@.len(),
        {
            let ghost k = taken@.len() as int;
            let len = rest[0].rows.len();
            count = count.saturating_add(len);
            self.buffers.push(TableBuffer { table: rest[0].table.clone(), rows: Vec::new() });
            let entry = rest.remove(0);
            taken.push(entry);
            proof {
                assert(orig.take(k + 1).drop_last() =~= orig.take(k));
                assert(orig.take(k + 1).last() == orig[k]);
                assert(taken@ =~= orig.take(k + 1));
                assert(rest@ =~= orig.skip(k + 1));
            }
        }
        proof {
            assert(orig.take(taken@.len() as int) =~= orig);
        }
        self.total = self.total.saturating_add(count);
        (taken, count)
    }
}

/// Finds the buffer bound for `name`.
fn find_buffer_index(bufs: &Vec<TableBuffer>, name: &String) -> (r: Option<usize>)
    ensures
        r matches Some(i) ==> i < bufs@.len() && spec_buffer_index(bufs@, name@) == Some(
            i as int,
        ),
        r is None ==> spec_buffer_index(bufs@, name@) is None,
{
    let n = bufs.len();
    for i in 0..n
        invariant
            n == bufs@.len(),
            forall|j: int| 0 <= j < i ==> bufs@[j].table@ != name@,
    {
        if bufs[i].table == *name {
            proof {
                lemma_buffer_index_found(bufs@, name@, i as int);
            }
            return Some(i);
        }
    }
    proof {
        lemma_buffer_index_none(bufs@, name@);
    }
    None
}

/// A first match at `i` is what the lookup finds.
proof fn lemma_buffer_index_found(bufs: Seq<TableBuffer>, name: Seq<char>, i: int)
    requires
        0 <= i < bufs.len(),
        forall|j: int| 0 <= j < i ==> bufs[j].table@ != name,
        bufs[i].table@ == name,
    ensures
        spec_buffer_index(bufs, name) == Some(i),
    decreases i,
{
    if i > 0 {
        assert forall|j: int| 0 <= j < i - 1 implies bufs.drop_first()[j].table@ != name by {
            assert(bufs.drop_first()[j] == bufs[j + 1]);
        }
        assert(bufs.drop_first()[i - 1] == bufs[i]);
        lemma_buffer_index_found(bufs.drop_first(), name, i - 1);
    }
}

/// With no match anywhere, the lookup finds nothing.
proof fn lemma_buffer_index_none(bufs: Seq<TableBuffer>, name: Seq<char>)
    requires
        forall|j: int| 0 <= j < bufs.len() ==> bufs[j].table@ != name,
    ensures
        spec_buffer_index(bufs, name) is None,
    decreases bufs.len(),
{
    if bufs.len() > 0 {
        assert forall|j: int|
            0 <= j < bufs.drop_first().len() implies bufs.drop_first()[j].table@ != name by {
            assert(bufs.drop_first()[j] == bufs[j + 1]);
        }
        lemma_buffer_index_none(bufs.drop_first(), name);
    }
}

/// What one `INSERT OR IGNORE` does to a stored table, modelled as its rows
/// keyed by primary key: a row under a key already present is dropped.
pub open spec fn spec_store_insert_or_ignore(
    store: Map<Seq<char>, Seq<(Seq<char>, Seq<char>)>>,
    key: Seq<char>,
    row: Seq<(Seq<char>, Seq<char>)>,
) -> Map<Seq<char>, Seq<(Seq<char>, Seq<char>)>> {
    if store.dom().contains(key) {
        store
    } else {
        store.insert(key, row)
    }
}

/// A batch applied row by row under insert-or-ignore.
pub open spec fn spec_store_apply_batch(
    store: Map<Seq<char>, Seq<(Seq<char>, Seq<char>)>>,
    batch: Seq<(Seq<char>, Seq<(Seq<char>, Seq<char>)>)>,
) -> Map<Seq<char>, Seq<(Seq<char>, Seq<char>)>>
    decreases batch.len(),
{
    if batch.len() == 0 {
        store
    } else {
        spec_store_apply_batch(
            spec_store_insert_or_ignore(store, batch.first().0, batch.first().1),
            batch.drop_first(),
        )
    }
}

/// Applying a batch loses no stored row and stores every key of the batch.
pub proof fn lemma_store_apply_covers(
    store: Map<Seq<char>, Seq<(Seq<char>, Seq<char>)>>,
    batch: Seq<(Seq<char>, Seq<(Seq<char>, Seq<char>)>)>,
)
    ensures
        forall|k: Seq<char>|
            store.dom().contains(k) ==> #[trigger] spec_store_apply_batch(
                store,
                batch,
            ).dom().contains(k),
        forall|i: int|
            0 <= i < batch.len() ==> spec_store_apply_batch(store, batch).dom().contains(
                (#[trigger] batch[i]).0,
            ),
    decreases batch.len(),
{
    if batch.len() > 0 {
        let store1 = spec_store_insert_or_ignore(store, batch.first().0, batch.first().1);
        lemma_store_apply_covers(store1, batch.drop_first());
        assert forall|k: Seq<char>| store.dom().contains(k) implies #[trigger]
            spec_store_apply_batch(store, batch).dom().contains(k) by {
            assert(store1.dom().contains(k));
            assert(spec_store_apply_batch(store1, batch.drop_first()).dom().contains(k));
        }
        assert forall|i: int| 0 <= i < batch.len() implies spec_store_apply_batch(
            store,
            batch,
        ).dom().contains((#[trigger] batch[i]).0) by {
            if i == 0 {
                assert(store1.dom().contains(batch[0].0));
                assert(spec_store_apply_batch(store1, batch.drop_first()).dom().contains(
                    batch[0].0,
                ));
            } else {
                assert(batch.drop_first()[i - 1] == batch[i]);
                assert(spec_store_apply_batch(store1, batch.drop_first()).dom().contains(
                    batch.drop_first()[i - 1].0,
                ));
            }
        }
    }
}

/// A batch whose keys are all stored already changes nothing.
pub proof fn lemma_store_apply_absorbed(
    store: Map<Seq<char>, Seq<(Seq<char>, Seq<char>)>>,
    batch: Seq<(Seq<char>, Seq<(Seq<char>, Seq<char>)>)>,
)
    requires
        forall|i: int| 0 <= i < batch.len() ==> store.dom().contains(#[trigger] batch[i].0),
    ensures
        spec_store_apply_batch(store, batch) == store,
    decreases batch.len(),
{
    if batch.len() > 0 {
        assert(batch[0].0 == batch.first().0);
        assert forall|i: int|
            0 <= i < batch.drop_first().len() implies store.dom().contains(
            #[trigger] batch.drop_first()[i].0,
        ) by {
            assert(batch.drop_first()[i] == batch[i + 1]);
        }
        lemma_store_apply_absorbed(store, batch.drop_first());
    }
}

/// Ingest idempotence: replaying a batch over a store that has already
/// absorbed it changes nothing. Every staged biometric row is flushed with
/// `spec_insert_sql`, whose statement ignores an already-present key, and is
/// keyed by `spec_record_uuid`, a function of the row's content alone — so
/// ingesting the same file twice leaves every table as one ingestion left
/// it, row counts included.
pub proof fn lemma_reingest_idempotent(
    store: Map<Seq<char>, Seq<(Seq<char>, Seq<char>)>>,
    batch: Seq<(Seq<char>, Seq<(Seq<char>, Seq<char>)>)>,
)
    ensures
        spec_store_apply_batch(spec_store_apply_batch(store, batch), batch)
            == spec_store_apply_batch(store, batch),
{
    lemma_store_apply_covers(store, batch);
    lemma_store_apply_absorbed(spec_store_apply_batch(store, batch), batch);
}

} // verus!
