use vstd::prelude::*;

verus! {

use vstd::string::StringExecFns;
use crate::CoreError;
use crate::manifest::{ColumnDefinition, Manifest};
use crate::text::{join, spec_join, views_of};

/// The standard columns every manifest table carries, then its declared
/// field names: the names a caller may sort by.
pub open spec fn spec_manifest_table_columns(cols: Seq<ColumnDefinition>) -> Seq<Seq<char>>
    decreases cols.len(),
{
    if cols.len() == 0 {
        seq!["uuid"@, "creation_date"@, "start_date"@, "end_date"@]
    } else {
        spec_manifest_table_columns(cols.drop_last()).push(cols.last().field_name@)
    }
}

/// The column names of the ECG target table.
pub open spec fn spec_ecg_columns(cfg: crate::manifest::EcgConfig) -> Seq<Seq<char>> {
    spec_ecg_meta_columns(cfg.metadata_map@).push(cfg.payload.db_column@)
}

/// The metadata column names of the ECG target table, after its fixed ones.
pub open spec fn spec_ecg_meta_columns(ms: Seq<crate::manifest::EcgMetadataMap>) -> Seq<Seq<char>>
    decreases ms.len(),
{
    if ms.len() == 0 {
        seq!["id"@, "file_name"@, "sample_count"@, "mean_voltage"@, "calculated_hr"@]
    } else {
        spec_ecg_meta_columns(ms.drop_last()).push(ms.last().db_column@)
    }
}

/// The column names of the route target table.
pub open spec fn spec_route_columns(cs: Seq<crate::manifest::RouteColumn>) -> Seq<Seq<char>>
    decreases cs.len(),
{
    if cs.len() == 0 {
        seq!["id"@, "file_name"@]
    } else {
        spec_route_columns(cs.drop_last()).push(cs.last().db_column@)
    }
}

/// The sortable column names of `table`, or `None` when neither the manifest
/// nor the external sources declare it.
pub open spec fn spec_table_columns(m: Manifest, table: Seq<char>) -> Option<Seq<Seq<char>>> {
    if m.spec_has_table(table) {
        Some(
            spec_manifest_table_columns(
                m.tables@[m.spec_table_index(table)->0].config.columns@,
            ),
        )
    } else {
        match m.external_sources {
            Some(ext) => {
                match (ext.ecg, ext.routes) {
                    (Some(ecg), _) if ecg.target_table@ == table => Some(spec_ecg_columns(ecg)),
                    (_, Some(routes)) if routes.target_table@ == table => Some(
                        spec_route_columns(routes.columns@),
                    ),
                    _ => None,
                }
            },
            None => None,
        }
    }
}

/// Lists the sortable columns of a manifest table.
fn manifest_table_columns(cols: &Vec<ColumnDefinition>) -> (r: Vec<String>)
    ensures
        views_of(r@) == spec_manifest_table_columns(cols@),
{
    let mut out: Vec<String> = Vec::new();
    out.push("uuid".to_owned());
    out.push("creation_date".to_owned());
    out.push("start_date".to_owned());
    out.push("end_date".to_owned());
    let n = cols.len();
    proof {
        assert(cols@.take(0) =~= Seq::<ColumnDefinition>::empty());
        assert(views_of(out@) =~= spec_manifest_table_columns(cols@.take(0)));
    }
    for i in 0..n
        invariant
            n == cols@.len(),
            views_of(out@) == spec_manifest_table_columns(cols@.take(i as int)),
    {
        let ghost before = out@;
        out.push(cols[i].field_name.clone());
        proof {
            assert(cols@.take(i as int + 1).drop_last() =~= cols@.take(i as int));
            assert(views_of(out@) =~= views_of(before).push(cols@[i as int].field_name@));
        }
    }
    proof {
        assert(cols@.take(n as int) =~= cols@);
    }
    out
}

/// Lists the columns of the ECG target table.
fn ecg_columns(cfg: &crate::manifest::EcgConfig) -> (r: Vec<String>)
    ensures
        views_of(r@) == spec_ecg_columns(*cfg),
{
    let mut out: Vec<String> = Vec::new();
    out.push("id".to_owned());
    out.push("file_name".to_owned());
    out.push("sample_count".to_owned());
    out.push("mean_voltage".to_owned());
    out.push("calculated_hr".to_owned());
    let n = cfg.metadata_map.len();
    proof {
        assert(cfg.metadata_map@.take(0) =~= Seq::<crate::manifest::EcgMetadataMap>::empty());
        assert(views_of(out@) =~= spec_ecg_meta_columns(cfg.metadata_map@.take(0)));
    }
    for i in 0..n
        invariant
            n == cfg.metadata_map@.len(),
            views_of(out@) == spec_ecg_meta_columns(cfg.metadata_map@.take(i as int)),
    {
        let ghost before = out@;
        out.push(cfg.metadata_map[i].db_column.clone());
        proof {
            assert(cfg.metadata_map@.take(i as int + 1).drop_last() =~= cfg.metadata_map@.take(
                i as int,
            ));
            assert(views_of(out@) =~= views_of(before).push(
                cfg.metadata_map@[i as int].db_column@,
            ));
        }
    }
    let ghost before = out@;
    out.push(cfg.payload.db_column.clone());
    proof {
        assert(cfg.metadata_map@.take(n as int) =~= cfg.metadata_map@);
        assert(views_of(out@) =~= views_of(before).push(cfg.payload.db_column@));
    }
    out
}

/// Lists the columns of the route target table.
fn route_columns(cs: &Vec<crate::manifest::RouteColumn>) -> (r: Vec<String>)
    ensures
        views_of(r@) == spec_route_columns(cs@),
{
    let mut out: Vec<String> = Vec::new();
    out.push("id".to_owned());
    out.push("file_name".to_owned());
    let n = cs.len();
    proof {
        assert(cs@.take(0) =~= Seq::<crate::manifest::RouteColumn>::empty());
        assert(views_of(out@) =~= spec_route_columns(cs@.take(0)));
    }
    for i in 0..n
        invariant
            n == cs@.len(),
            views_of(out@) == spec_route_columns(cs@.take(i as int)),
    {
        let ghost before = out@;
        out.push(cs[i].db_column.clone());
        proof {
            assert(cs@.take(i as int + 1).drop_last() =~= cs@.take(i as int));
            assert(views_of(out@) =~= views_of(before).push(cs@[i as int].db_column@));
        }
    }
    proof {
        assert(cs@.take(n as int) =~= cs@);
    }
    out
}

/// Lists the sortable columns of `table`.
pub fn table_columns(m: &Manifest, table: &str) -> (r: Option<Vec<String>>)
    requires
        m.wf(),
    ensures
        r is Some <==> spec_table_columns(*m, table@) is Some,
        r matches Some(v) ==> Some(views_of(v@)) == spec_table_columns(*m, table@),
{
    if let Some(cfg) = m.find_table(table) {
        proof {
            let i = choose|i: int|
                0 <= i < m.tables@.len() && m.tables@[i].name@ == table@ && *cfg
                    == m.tables@[i].config;
            assert(m.spec_table_index(table@) == Some(
                choose|j: int| 0 <= j < m.tables@.len() && m.tables@[j].name@ == table@,
            ));
            let j = m.spec_table_index(table@)->0;
            assert(m.tables@[j].name@ == table@);
            assert(i == j);
        }
        return Some(manifest_table_columns(&cfg.columns));
    }
    let needle = table.to_owned();
    match &m.external_sources {
        Some(ext) => {
            match &ext.ecg {
                Some(ecg) => {
                    if ecg.target_table == needle {
                        return Some(ecg_columns(ecg));
                    }
                },
                None => {},
            }
            match &ext.routes {
                Some(routes) => {
                    if routes.target_table == needle {
                        return Some(route_columns(&routes.columns));
                    }
                },
                None => {},
            }
            None
        },
        None => None,
    }
}

/// The `WHERE` clause filtering `col` by the requested bounds.
pub open spec fn spec_range_clause(col: Seq<char>, has_start: bool, has_end: bool) -> Seq<char> {
    if has_start && has_end {
        " WHERE "@ + col + " >= ? AND "@ + col + " <= ?"@
    } else if has_start {
        " WHERE "@ + col + " >= ?"@
    } else if has_end {
        " WHERE "@ + col + " <= ?"@
    } else {
        Seq::empty()
    }
}

/// Appends the range clause for `col`.
fn push_range_clause(out: &mut String, col: &str, has_start: bool, has_end: bool)
    ensures
        final(out)@ == old(out)@ + spec_range_clause(col@, has_start, has_end),
{
    let ghost before = out@;
    if has_start && has_end {
        out.append(" WHERE ");
        out.append(col);
        out.append(" >= ? AND ");
        out.append(col);
        out.append(" <= ?");
    } else if has_start {
        out.append(" WHERE ");
        out.append(col);
        out.append(" >= ?");
    } else if has_end {
        out.append(" WHERE ");
        out.append(col);
        out.append(" <= ?");
    }
    proof {
        assert(out@ =~= before + spec_range_clause(col@, has_start, has_end));
    }
}

/// The row query for one table: all columns, the requested range on the sort
/// column, newest first, at most the bound limit of rows.
pub open spec fn spec_query_table_sql(
    table: Seq<char>,
    sort: Seq<char>,
    has_start: bool,
    has_end: bool,
) -> Seq<char> {
    "SELECT * FROM "@ + table + spec_range_clause(sort, has_start, has_end) + " ORDER BY "@
        + sort + " DESC LIMIT ?"@
}

/// Builds the row query for a table. The table must be known to the
/// manifest, and the sort column must be one of its columns; the limit and
/// the range bounds are bound as parameters, never spliced in.
pub fn query_table_sql(
    m: &Manifest,
    table: &str,
    sort: Option<&str>,
    has_start: bool,
    has_end: bool,
) -> (r: Result<String, CoreError>)
    requires
        m.wf(),
    ensures
        r matches Err(e) ==> (e == CoreError::NotFound <==> spec_table_columns(*m, table@)
            is None),
        r is Err && spec_table_columns(*m, table@) is Some ==> r == Err::<
            String,
            CoreError,
        >(CoreError::InvalidArgument) && !spec_table_columns(*m, table@)->0.contains(
            match sort {
                Some(s) => s@,
                None => "start_date"@,
            },
        ),
        r matches Ok(sql) ==> spec_table_columns(*m, table@) matches Some(cols) && cols.contains(
            match sort {
                Some(s) => s@,
                None => "start_date"@,
            },
        ) && sql@ == spec_query_table_sql(
            table@,
            match sort {
                Some(s) => s@,
                None => "start_date"@,
            },
            has_start,
            has_end,
        ),
{
    let cols = match table_columns(m, table) {
        Some(c) => c,
        None => { return Err(CoreError::NotFound); },
    };
    let sort_by: &str = match sort {
        Some(s) => s,
        None => "start_date",
    };
    if !crate::text::vec_contains_str(&cols, sort_by) {
        proof {
            assert forall|j: int| 0 <= j < views_of(cols@).len() implies views_of(cols@)[j]
                != sort_by@ by {
                assert(views_of(cols@)[j] == cols@[j]@);
            }
        }
        return Err(CoreError::InvalidArgument);
    }
    proof {
        let i = choose|i: int| 0 <= i < cols@.len() && cols@[i]@ == sort_by@;
        assert(views_of(cols@)[i] == sort_by@);
        assert(views_of(cols@).contains(sort_by@));
    }
    let mut out = String::new();
    out.append("SELECT * FROM ");
    out.append(table);
    push_range_clause(&mut out, sort_by, has_start, has_end);
    out.append(" ORDER BY ");
    out.append(sort_by);
    out.append(" DESC LIMIT ?");
    proof {
        assert(out@ =~= spec_query_table_sql(table@, sort_by@, has_start, has_end));
    }
    Ok(out)
}

/// The `strftime` format of a bucket: hours, days or months.
pub open spec fn spec_bucket_format(bucket: Seq<char>) -> Option<Seq<char>> {
    if bucket == "hour"@ {
        Some("%Y-%m-%dT%H:00:00Z"@)
    } else if bucket == "day"@ {
        Some("%Y-%m-%d"@)
    } else if bucket == "month"@ {
        Some("%Y-%m"@)
    } else {
        None
    }
}

/// The aggregated select of one column, by its declared aggregation; `raw`
/// and unknown modes yield nothing.
pub open spec fn spec_agg_select(col: ColumnDefinition) -> Option<Seq<char>> {
    if col.aggregate@ == "avg"@ {
        Some("AVG("@ + col.field_name@ + ") as "@ + col.field_name@)
    } else if col.aggregate@ == "sum"@ {
        Some("SUM("@ + col.field_name@ + ") as "@ + col.field_name@)
    } else if col.aggregate@ == "min"@ {
        Some("MIN("@ + col.field_name@ + ") as "@ + col.field_name@)
    } else if col.aggregate@ == "max"@ {
        Some("MAX("@ + col.field_name@ + ") as "@ + col.field_name@)
    } else if col.aggregate@ == "count"@ {
        Some("COUNT("@ + col.field_name@ + ") as "@ + col.field_name@)
    } else {
        None
    }
}

/// The select list of a bucketed aggregation: the bucket itself, then one
/// aggregate per column that declares one.
pub open spec fn spec_agg_selects(fmt: Seq<char>, cols: Seq<ColumnDefinition>) -> Seq<Seq<char>>
    decreases cols.len(),
{
    if cols.len() == 0 {
        seq!["strftime('"@ + fmt + "', start_date) as time_bucket"@]
    } else {
        spec_agg_selects(fmt, cols.drop_last()) + (match spec_agg_select(cols.last()) {
            Some(s) => seq![s],
            None => Seq::<Seq<char>>::empty(),
        })
    }
}

/// The bucketed aggregation query over one table.
pub open spec fn spec_aggregate_sql(
    table: Seq<char>,
    fmt: Seq<char>,
    cols: Seq<ColumnDefinition>,
    has_start: bool,
    has_end: bool,
) -> Seq<char> {
    "SELECT "@ + spec_join(spec_agg_selects(fmt, cols), ", "@) + " FROM "@ + table
        + spec_range_clause("start_date"@, has_start, has_end)
        + " GROUP BY time_bucket ORDER BY time_bucket DESC"@
}

/// Builds the aggregated select of one column.
fn agg_select(col: &ColumnDefinition) -> (r: Option<String>)
    ensures
        r is Some <==> spec_agg_select(*col) is Some,
        r matches Some(s) ==> Some(s@) == spec_agg_select(*col),
{
    let word: &str = if col.aggregate == "avg".to_owned() {
        "AVG("
    } else if col.aggregate == "sum".to_owned() {
        "SUM("
    } else if col.aggregate == "min".to_owned() {
        "MIN("
    } else if col.aggregate == "max".to_owned() {
        "MAX("
    } else if col.aggregate == "count".to_owned() {
        "COUNT("
    } else {
        return None;
    };
    let mut out = String::new();
    out.append(word);
    out.append(col.field_name.as_str());
    out.append(") as ");
    out.append(col.field_name.as_str());
    proof {
        assert(out@ =~= spec_agg_select(*col)->0);
    }
    Some(out)
}

/// Builds the bucketed aggregation query for a table. An unknown table is
/// `NotFound`; a bucket other than `hour`, `day` or `month` is
/// `InvalidArgument`; the range bounds are bound as parameters.
pub fn aggregate_sql(
    m: &Manifest,
    table: &str,
    bucket: &str,
    has_start: bool,
    has_end: bool,
) -> (r: Result<String, CoreError>)
    requires
        m.wf(),
    ensures
        r == Err::<String, CoreError>(CoreError::NotFound) <==> !m.spec_has_table(table@),
        m.spec_has_table(table@) ==> (r == Err::<String, CoreError>(CoreError::InvalidArgument)
            <==> spec_bucket_format(bucket@) is None),
        r matches Ok(sql) ==> m.spec_has_table(table@) && spec_bucket_format(bucket@) is Some
            && sql@ == spec_aggregate_sql(
            table@,
            spec_bucket_format(bucket@)->0,
            m.tables@[m.spec_table_index(table@)->0].config.columns@,
            has_start,
            has_end,
        ),
{
    let cfg = match m.find_table(table) {
        Some(c) => c,
        None => { return Err(CoreError::NotFound); },
    };
    proof {
        let i = choose|i: int|
            0 <= i < m.tables@.len() && m.tables@[i].name@ == table@ && *cfg
                == m.tables@[i].config;
        let j = m.spec_table_index(table@)->0;
        assert(m.tables@[j].name@ == table@);
        assert(i == j);
    }
    let bucket_owned = bucket.to_owned();
    let fmt: &str = if bucket_owned == "hour".to_owned() {
        "%Y-%m-%dT%H:00:00Z"
    } else if bucket_owned == "day".to_owned() {
        "%Y-%m-%d"
    } else if bucket_owned == "month".to_owned() {
        "%Y-%m"
    } else {
        return Err(CoreError::InvalidArgument);
    };
    let mut parts: Vec<String> = Vec::new();
    let mut bucket_part = String::new();
    bucket_part.append("strftime('");
    bucket_part.append(fmt);
    bucket_part.append("', start_date) as time_bucket");
    parts.push(bucket_part);
    let n = cfg.columns.len();
    proof {
        assert(cfg.columns@.take(0) =~= Seq::<ColumnDefinition>::empty());
        assert(views_of(parts@) =~= spec_agg_selects(fmt@, cfg.columns@.take(0)));
    }
    for i in 0..n
        invariant
            n == cfg.columns@.len(),
            views_of(parts@) == spec_agg_selects(fmt@, cfg.columns@.take(i as int)),
    {
        let ghost before = parts@;
        match agg_select(&cfg.columns[i]) {
            Some(s) => {
                let ghost sv = s@;
                parts.push(s);
                proof {
                    assert(views_of(parts@) =~= views_of(before).push(sv));
                }
            },
            None => {},
        }
        proof {
            assert(cfg.columns@.take(i as int + 1).drop_last() =~= cfg.columns@.take(i as int));
            assert(views_of(parts@) =~= spec_agg_selects(
                fmt@,
                cfg.columns@.take(i as int + 1),
            ));
        }
    }
    proof {
        assert(cfg.columns@.take(n as int) =~= cfg.columns@);
    }
    let joined = join(&parts, ", ");
    let mut out = String::new();
    out.append("SELECT ");
    out.append(joined.as_str());
    out.append(" FROM ");
    out.append(table);
    push_range_clause(&mut out, "start_date", has_start, has_end);
    out.append(" GROUP BY time_bucket ORDER BY time_bucket DESC");
    proof {
        assert(out@ =~= spec_aggregate_sql(
            table@,
            fmt@,
            m.tables@[m.spec_table_index(table@)->0].config.columns@,
            has_start,
            has_end,
        ));
    }
    Ok(out)
}

/// Whether a column is numeric in the schema sense.
pub open spec fn spec_is_numeric(col: ColumnDefinition) -> bool {
    col.data_type@ == "REAL"@ || col.data_type@ == "INTEGER"@
}

/// The trend select list: average, minimum and maximum of every numeric
/// column of the vitals table.
pub open spec fn spec_trend_selects(cols: Seq<ColumnDefinition>) -> Seq<Seq<char>>
    decreases cols.len(),
{
    if cols.len() == 0 {
        Seq::empty()
    } else {
        spec_trend_selects(cols.drop_last()) + (if spec_is_numeric(cols.last()) {
            seq![
                "AVG("@ + cols.last().field_name@ + ") as "@ + cols.last().field_name@
                    + "_avg"@,
                "MIN("@ + cols.last().field_name@ + ") as "@ + cols.last().field_name@
                    + "_min"@,
                "MAX("@ + cols.last().field_name@ + ") as "@ + cols.last().field_name@
                    + "_max"@,
            ]
        } else {
            Seq::<Seq<char>>::empty()
        })
    }
}

/// The biometric-trend query over a window of the vitals table.
pub open spec fn spec_trends_sql(cols: Seq<ColumnDefinition>) -> Seq<char> {
    "SELECT "@ + spec_join(spec_trend_selects(cols), ", "@)
        + " FROM vitals WHERE start_date >= ? AND start_date <= ?"@
}

/// Builds the biometric-trend query. A manifest without a `vitals` table is
/// `NotFound`; a vitals table without numeric columns yields no query.
pub fn trends_sql(m: &Manifest) -> (r: Result<Option<String>, CoreError>)
    requires
        m.wf(),
    ensures
        r is Err <==> !m.spec_has_table("vitals"@),
        r matches Ok(o) ==> {
            let cols = m.tables@[m.spec_table_index("vitals"@)->0].config.columns@;
            o matches Some(sql) ==> spec_trend_selects(cols).len() > 0 && sql@
                == spec_trends_sql(cols)
        },
        r matches Ok(o) && o is None ==> spec_trend_selects(
            m.tables@[m.spec_table_index("vitals"@)->0].config.columns@,
        ).len() == 0,
{
    let cfg = match m.find_table("vitals") {
        Some(c) => c,
        None => { return Err(CoreError::NotFound); },
    };
    proof {
        let i = choose|i: int|
            0 <= i < m.tables@.len() && m.tables@[i].name@ == "vitals"@ && *cfg
                == m.tables@[i].config;
        let j = m.spec_table_index("vitals"@)->0;
        assert(m.tables@[j].name@ == "vitals"@);
        assert(i == j);
    }
    let mut parts: Vec<String> = Vec::new();
    let n = cfg.columns.len();
    proof {
        assert(cfg.columns@.take(0) =~= Seq::<ColumnDefinition>::empty());
        assert(views_of(parts@) =~= spec_trend_selects(cfg.columns@.take(0)));
    }
    for i in 0..n
        invariant
            n == cfg.columns@.len(),
            views_of(parts@) == spec_trend_selects(cfg.columns@.take(i as int)),
    {
        let ghost before = parts@;
        let col = &cfg.columns[i];
        let numeric = col.data_type == "REAL".to_owned() || col.data_type
            == "INTEGER".to_owned();
        if numeric {
            let mut avg_part = String::new();
            avg_part.append("AVG(");
            avg_part.append(col.field_name.as_str());
            avg_part.append(") as ");
            avg_part.append(col.field_name.as_str());
            avg_part.append("_avg");
            let mut min_part = String::new();
            min_part.append("MIN(");
            min_part.append(col.field_name.as_str());
            min_part.append(") as ");
            min_part.append(col.field_name.as_str());
            min_part.append("_min");
            let mut max_part = String::new();
            max_part.append("MAX(");
            max_part.append(col.field_name.as_str());
            max_part.append(") as ");
            max_part.append(col.field_name.as_str());
            max_part.append("_max");
            parts.push(avg_part);
            parts.push(min_part);
            parts.push(max_part);
        }
        proof {
            assert(cfg.columns@.take(i as int + 1).drop_last() =~= cfg.columns@.take(i as int));
            assert(views_of(parts@) =~= spec_trend_selects(cfg.columns@.take(i as int + 1)));
        }
    }
    proof {
        assert(cfg.columns@.take(n as int) =~= cfg.columns@);
    }
    if parts.is_empty() {
        proof {
            assert(views_of(parts@).len() == 0);
        }
        return Ok(None);
    }
    let joined = join(&parts, ", ");
    let mut out = String::new();
    out.append("SELECT ");
    out.append(joined.as_str());
    out.append(" FROM vitals WHERE start_date >= ? AND start_date <= ?");
    proof {
        assert(out@ =~= spec_trends_sql(
            m.tables@[m.spec_table_index("vitals"@)->0].config.columns@,
        ));
    }
    Ok(Some(out))
}

/// The tables a database summary counts: every manifest table, then the
/// configured external target tables.
pub open spec fn spec_summary_tables(m: Manifest) -> Seq<Seq<char>> {
    spec_manifest_table_names(m.tables@) + (match m.external_sources {
        Some(ext) => (match ext.ecg {
            Some(ecg) => seq![ecg.target_table@],
            None => Seq::<Seq<char>>::empty(),
        }) + (match ext.routes {
            Some(routes) => seq![routes.target_table@],
            None => Seq::<Seq<char>>::empty(),
        }),
        None => Seq::<Seq<char>>::empty(),
    })
}

/// The names of the manifest tables, in order.
pub open spec fn spec_manifest_table_names(tables: Seq<crate::manifest::TableEntry>) -> Seq<
    Seq<char>,
>
    decreases tables.len(),
{
    if tables.len() == 0 {
        Seq::empty()
    } else {
        spec_manifest_table_names(tables.drop_last()).push(tables.last().name@)
    }
}

/// Lists the tables a database summary counts.
pub fn summary_tables(m: &Manifest) -> (r: Vec<String>)
    ensures
        views_of(r@) == spec_summary_tables(*m),
{
    let mut out: Vec<String> = Vec::new();
    let n = m.tables.len();
    proof {
        assert(m.tables@.take(0) =~= Seq::<crate::manifest::TableEntry>::empty());
        assert(views_of(out@) =~= spec_manifest_table_names(m.tables@.take(0)));
    }
    for i in 0..n
        invariant
            n == m.tables@.len(),
            views_of(out@) == spec_manifest_table_names(m.tables@.take(i as int)),
    {
        let ghost before = out@;
        out.push(m.tables[i].name.clone());
        proof {
            assert(m.tables@.take(i as int + 1).drop_last() =~= m.tables@.take(i as int));
            assert(views_of(out@) =~= views_of(before).push(m.tables@[i as int].name@));
        }
    }
    proof {
        assert(m.tables@.take(n as int) =~= m.tables@);
    }
    match &m.external_sources {
        Some(ext) => {
            match &ext.ecg {
                Some(ecg) => {
                    out.push(ecg.target_table.clone());
                },
                None => {},
            }
            match &ext.routes {
                Some(routes) => {
                    out.push(routes.target_table.clone());
                },
                None => {},
            }
        },
        None => {},
    }
    proof {
        assert(views_of(out@) =~= spec_summary_tables(*m));
    }
    out
}

/// The row count query of one table.
pub open spec fn spec_count_sql(table: Seq<char>) -> Seq<char> {
    "SELECT COUNT(*) FROM "@ + table
}

/// Builds the row count query of one table.
pub fn count_sql(table: &str) -> (r: String)
    ensures
        r@ == spec_count_sql(table@),
{
    let mut out = String::new();
    out.append("SELECT COUNT(*) FROM ");
    out.append(table);
    proof {
        assert(out@ =~= spec_count_sql(table@));
    }
    out
}

/// The query asking whether a file was imported already.
pub open spec fn spec_exists_by_filename_sql(table: Seq<char>) -> Seq<char> {
    "SELECT COUNT(*) FROM "@ + table + " WHERE file_name = ?"@
}

/// Builds the query asking whether a file was imported already.
pub fn exists_by_filename_sql(table: &str) -> (r: String)
    ensures
        r@ == spec_exists_by_filename_sql(table@),
{
    let mut out = String::new();
    out.append("SELECT COUNT(*) FROM ");
    out.append(table);
    out.append(" WHERE file_name = ?");
    proof {
        assert(out@ =~= spec_exists_by_filename_sql(table@));
    }
    out
}

} // verus!
