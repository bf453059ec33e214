use vstd::prelude::*;

verus! {

use vstd::string::StringExecFns;
use crate::manifest::{ColumnDefinition, EcgConfig, RouteConfig, TableConfig};
use crate::text::{contains_str, join, spec_join, vec_contains_str, views_of};

/// The first column marked as primary key, if any; later marks are ignored.
pub open spec fn spec_first_pk(cols: Seq<ColumnDefinition>) -> Option<ColumnDefinition>
    decreases cols.len(),
{
    if cols.len() == 0 {
        None
    } else if cols.first().is_primary_key {
        Some(cols.first())
    } else {
        spec_first_pk(cols.drop_first())
    }
}

/// Finds the first primary-key column.
fn first_pk_index(cols: &Vec<ColumnDefinition>) -> (r: Option<usize>)
    ensures
        r matches Some(i) ==> i < cols@.len() && spec_first_pk(cols@) == Some(cols@[i as int]),
        r is None ==> spec_first_pk(cols@) is None,
{
    let n = cols.len();
    proof {
        assert(cols@.skip(0) =~= cols@);
    }
    for i in 0..n
        invariant
            n == cols@.len(),
            spec_first_pk(cols@) == spec_first_pk(cols@.skip(i as int)),
    {
        proof {
            assert(cols@.skip(i as int).drop_first() =~= cols@.skip(i as int + 1));
        }
        if cols[i].is_primary_key {
            return Some(i);
        }
    }
    None
}

/// The `CREATE TABLE` statement for a manifest table: the declared primary
/// key, or a synthetic `uuid`, plus the three date columns every table gets.
pub open spec fn spec_create_table_sql(name: Seq<char>, cols: Seq<ColumnDefinition>) -> Seq<
    char,
> {
    if spec_first_pk(cols) is Some {
        let pk = spec_first_pk(cols)->Some_0;
        "CREATE TABLE IF NOT EXISTS "@ + name + " ("@ + pk.field_name@ + " "@ + pk.data_type@
            + " PRIMARY KEY, creation_date TEXT, start_date TEXT, end_date TEXT)"@
    } else {
        "CREATE TABLE IF NOT EXISTS "@ + name
            + " (uuid TEXT PRIMARY KEY, creation_date TEXT, start_date TEXT, end_date TEXT)"@
    }
}

/// Builds the `CREATE TABLE` statement for a manifest table.
pub fn create_table_sql(name: &str, table: &TableConfig) -> (r: String)
    ensures
        r@ == spec_create_table_sql(name@, table.columns@),
{
    let mut out = String::new();
    out.append("CREATE TABLE IF NOT EXISTS ");
    out.append(name);
    match first_pk_index(&table.columns) {
        Some(i) => {
            out.append(" (");
            out.append(table.columns[i].field_name.as_str());
            out.append(" ");
            out.append(table.columns[i].data_type.as_str());
            out.append(" PRIMARY KEY, creation_date TEXT, start_date TEXT, end_date TEXT)");
        },
        None => {
            out.append(
                " (uuid TEXT PRIMARY KEY, creation_date TEXT, start_date TEXT, end_date TEXT)",
            );
        },
    }
    proof {
        assert(out@ =~= spec_create_table_sql(name@, table.columns@));
    }
    out
}

/// The `ALTER TABLE` statement that adds one manifest column: a plain column,
/// or a virtual generated one when the manifest gives an expression.
pub open spec fn spec_alter_sql(name: Seq<char>, col: ColumnDefinition) -> Seq<char> {
    if col.expression is Some {
        "ALTER TABLE "@ + name + " ADD COLUMN "@ + col.field_name@ + " "@ + col.data_type@
            + " GENERATED ALWAYS AS ("@ + col.expression->0@ + ") VIRTUAL"@
    } else {
        "ALTER TABLE "@ + name + " ADD COLUMN "@ + col.field_name@ + " "@ + col.data_type@
    }
}

/// Builds the `ALTER TABLE` statement for one column.
fn alter_sql(name: &str, col: &ColumnDefinition) -> (r: String)
    ensures
        r@ == spec_alter_sql(name@, *col),
{
    let mut out = String::new();
    out.append("ALTER TABLE ");
    out.append(name);
    out.append(" ADD COLUMN ");
    out.append(col.field_name.as_str());
    out.append(" ");
    out.append(col.data_type.as_str());
    match &col.expression {
        Some(expr) => {
            out.append(" GENERATED ALWAYS AS (");
            out.append(expr.as_str());
            out.append(") VIRTUAL");
        },
        None => {},
    }
    proof {
        assert(out@ =~= spec_alter_sql(name@, *col));
    }
    out
}

/// The schema migration for one table: one `ALTER TABLE … ADD COLUMN` per
/// manifest column whose name is not among the existing columns, in manifest
/// order, and nothing else — existing columns are never touched.
pub open spec fn spec_migration_list(
    name: Seq<char>,
    cols: Seq<ColumnDefinition>,
    existing: Seq<String>,
) -> Seq<Seq<char>>
    decreases cols.len(),
{
    if cols.len() == 0 {
        Seq::empty()
    } else {
        spec_migration_list(name, cols.drop_last(), existing) + (if contains_str(
            existing,
            cols.last().field_name@,
        ) {
            Seq::<Seq<char>>::empty()
        } else {
            seq![spec_alter_sql(name, cols.last())]
        })
    }
}

/// Builds the migration statements for one table against the columns the
/// database already has.
pub fn migration_statements(name: &str, table: &TableConfig, existing: &Vec<String>) -> (r: Vec<
    String,
>)
    ensures
        views_of(r@) == spec_migration_list(name@, table.columns@, existing@),
{
    let mut out: Vec<String> = Vec::new();
    let n = table.columns.len();
    for i in 0..n
        invariant
            n == table.columns@.len(),
            views_of(out@) == spec_migration_list(
                name@,
                table.columns@.take(i as int),
                existing@,
            ),
    {
        let ghost before = out@;
        if !vec_contains_str(existing, table.columns[i].field_name.as_str()) {
            out.push(alter_sql(name, &table.columns[i]));
        }
        proof {
            assert(table.columns@.take(i as int + 1).drop_last() =~= table.columns@.take(
                i as int,
            ));
            assert(table.columns@.take(i as int + 1).last() == table.columns@[i as int]);
            assert(views_of(out@) =~= spec_migration_list(
                name@,
                table.columns@.take(i as int + 1),
                existing@,
            ));
        }
    }
    proof {
        assert(table.columns@.take(n as int) =~= table.columns@);
    }
    out
}

/// Forward compatibility: when every manifest column already exists, a
/// restart issues no schema statement at all.
pub proof fn lemma_migration_settled(
    name: Seq<char>,
    cols: Seq<ColumnDefinition>,
    existing: Seq<String>,
)
    requires
        forall|i: int| 0 <= i < cols.len() ==> contains_str(existing, cols[i].field_name@),
    ensures
        spec_migration_list(name, cols, existing).len() == 0,
    decreases cols.len(),
{
    if cols.len() > 0 {
        lemma_migration_settled(name, cols.drop_last(), existing);
    }
}

/// Forward compatibility: extending a settled manifest by one new column
/// yields exactly the one statement that adds this column, and no statement
/// that touches anything else.
pub proof fn lemma_migration_adds_only_new_column(
    name: Seq<char>,
    cols: Seq<ColumnDefinition>,
    added: ColumnDefinition,
    existing: Seq<String>,
)
    requires
        forall|i: int| 0 <= i < cols.len() ==> contains_str(existing, cols[i].field_name@),
        !contains_str(existing, added.field_name@),
    ensures
        spec_migration_list(name, cols.push(added), existing) == seq![
            spec_alter_sql(name, added),
        ],
{
    lemma_migration_settled(name, cols, existing);
    assert(cols.push(added).drop_last() =~= cols);
    assert(spec_migration_list(name, cols.push(added), existing) =~= seq![
        spec_alter_sql(name, added),
    ]);
}

/// The index every manifest table gets on its `start_date` column.
pub open spec fn spec_start_date_index_sql(name: Seq<char>) -> Seq<char> {
    "CREATE INDEX IF NOT EXISTS idx_"@ + name + "_start_date ON "@ + name + " (start_date)"@
}

/// Builds the `start_date` index statement for one table.
pub fn start_date_index_sql(name: &str) -> (r: String)
    ensures
        r@ == spec_start_date_index_sql(name@),
{
    let mut out = String::new();
    out.append("CREATE INDEX IF NOT EXISTS idx_");
    out.append(name);
    out.append("_start_date ON ");
    out.append(name);
    out.append(" (start_date)");
    proof {
        assert(out@ =~= spec_start_date_index_sql(name@));
    }
    out
}

/// The `name type` declarations of the metadata columns.
pub open spec fn spec_meta_decls(ms: Seq<crate::manifest::EcgMetadataMap>) -> Seq<Seq<char>> {
    ms.map_values(|m: crate::manifest::EcgMetadataMap| m.db_column@ + " "@ + m.data_type@)
}

/// The column list of the ECG target table: the fixed identity and derived
/// columns, one column per metadata mapping, then the payload column.
pub open spec fn spec_ecg_table_cols(cfg: EcgConfig) -> Seq<Seq<char>> {
    seq![
        "id INTEGER PRIMARY KEY AUTOINCREMENT"@,
        "file_name TEXT UNIQUE"@,
        "sample_count INTEGER"@,
        "mean_voltage REAL"@,
        "calculated_hr REAL"@,
    ] + spec_meta_decls(cfg.metadata_map@) + seq![
        cfg.payload.db_column@ + " "@ + cfg.payload.data_type@,
    ]
}

/// The `CREATE TABLE` statement for the ECG target table.
pub open spec fn spec_ecg_table_sql(cfg: EcgConfig) -> Seq<char> {
    "CREATE TABLE IF NOT EXISTS "@ + cfg.target_table@ + " ("@ + spec_join(
        spec_ecg_table_cols(cfg),
        ", "@,
    ) + ")"@
}

/// One `name type` column declaration.
fn col_decl(name: &str, data_type: &str) -> (r: String)
    ensures
        r@ == name@ + " "@ + data_type@,
{
    let mut out = String::new();
    out.append(name);
    out.append(" ");
    out.append(data_type);
    proof {
        assert(out@ =~= name@ + " "@ + data_type@);
    }
    out
}

/// Builds the `CREATE TABLE` statement for the ECG target table.
pub fn ecg_table_sql(cfg: &EcgConfig) -> (r: String)
    ensures
        r@ == spec_ecg_table_sql(*cfg),
{
    let mut cols: Vec<String> = Vec::new();
    cols.push("id INTEGER PRIMARY KEY AUTOINCREMENT".to_owned());
    cols.push("file_name TEXT UNIQUE".to_owned());
    cols.push("sample_count INTEGER".to_owned());
    cols.push("mean_voltage REAL".to_owned());
    cols.push("calculated_hr REAL".to_owned());
    let n = cfg.metadata_map.len();
    for i in 0..n
        invariant
            n == cfg.metadata_map@.len(),
            views_of(cols@) =~= seq![
                "id INTEGER PRIMARY KEY AUTOINCREMENT"@,
                "file_name TEXT UNIQUE"@,
                "sample_count INTEGER"@,
                "mean_voltage REAL"@,
                "calculated_hr REAL"@,
            ] + spec_meta_decls(cfg.metadata_map@.take(i as int)),
    {
        let ghost before = cols@;
        cols.push(
            col_decl(
                cfg.metadata_map[i].db_column.as_str(),
                cfg.metadata_map[i].data_type.as_str(),
            ),
        );
        proof {
            let decl = cfg.metadata_map@[i as int].db_column@ + " "@
                + cfg.metadata_map@[i as int].data_type@;
            assert(spec_meta_decls(cfg.metadata_map@.take(i as int + 1)) =~= spec_meta_decls(
                cfg.metadata_map@.take(i as int),
            ).push(decl));
            assert(views_of(cols@) =~= views_of(before).push(decl));
        }
    }
    cols.push(col_decl(cfg.payload.db_column.as_str(), cfg.payload.data_type.as_str()));
    proof {
        assert(cfg.metadata_map@.take(n as int) =~= cfg.metadata_map@);
        assert(views_of(cols@) =~= spec_ecg_table_cols(*cfg));
    }
    let joined = join(&cols, ", ");
    let mut out = String::new();
    out.append("CREATE TABLE IF NOT EXISTS ");
    out.append(cfg.target_table.as_str());
    out.append(" (");
    out.append(joined.as_str());
    out.append(")");
    proof {
        assert(out@ =~= spec_ecg_table_sql(*cfg));
    }
    out
}

/// The `name type` declarations of the mapped route columns.
pub open spec fn spec_route_decls(cs: Seq<crate::manifest::RouteColumn>) -> Seq<Seq<char>> {
    cs.map_values(|c: crate::manifest::RouteColumn| c.db_column@ + " "@ + c.data_type@)
}

/// The column list of the route target table: identity columns, then one
/// column per mapped GPX tag.
pub open spec fn spec_route_table_cols(cfg: RouteConfig) -> Seq<Seq<char>> {
    seq!["id INTEGER PRIMARY KEY AUTOINCREMENT"@, "file_name TEXT"@] + spec_route_decls(
        cfg.columns@,
    )
}

/// The `CREATE TABLE` statement for the route target table.
pub open spec fn spec_route_table_sql(cfg: RouteConfig) -> Seq<char> {
    "CREATE TABLE IF NOT EXISTS "@ + cfg.target_table@ + " ("@ + spec_join(
        spec_route_table_cols(cfg),
        ", "@,
    ) + ")"@
}

/// Builds the `CREATE TABLE` statement for the route target table.
pub fn route_table_sql(cfg: &RouteConfig) -> (r: String)
    ensures
        r@ == spec_route_table_sql(*cfg),
{
    let mut cols: Vec<String> = Vec::new();
    cols.push("id INTEGER PRIMARY KEY AUTOINCREMENT".to_owned());
    cols.push("file_name TEXT".to_owned());
    let n = cfg.columns.len();
    for i in 0..n
        invariant
            n == cfg.columns@.len(),
            views_of(cols@) =~= seq![
                "id INTEGER PRIMARY KEY AUTOINCREMENT"@,
                "file_name TEXT"@,
            ] + spec_route_decls(cfg.columns@.take(i as int)),
    {
        let ghost before = cols@;
        cols.push(col_decl(cfg.columns[i].db_column.as_str(), cfg.columns[i].data_type.as_str()));
        proof {
            let decl = cfg.columns@[i as int].db_column@ + " "@
                + cfg.columns@[i as int].data_type@;
            assert(spec_route_decls(cfg.columns@.take(i as int + 1)) =~= spec_route_decls(
                cfg.columns@.take(i as int),
            ).push(decl));
            assert(views_of(cols@) =~= views_of(before).push(decl));
        }
    }
    proof {
        assert(cfg.columns@.take(n as int) =~= cfg.columns@);
        assert(views_of(cols@) =~= spec_route_table_cols(*cfg));
    }
    let joined = join(&cols, ", ");
    let mut out = String::new();
    out.append("CREATE TABLE IF NOT EXISTS ");
    out.append(cfg.target_table.as_str());
    out.append(" (");
    out.append(joined.as_str());
    out.append(")");
    proof {
        assert(out@ =~= spec_route_table_sql(*cfg));
    }
    out
}

/// The timestamp index of the route target table.
pub open spec fn spec_route_index_sql(name: Seq<char>) -> Seq<char> {
    "CREATE INDEX IF NOT EXISTS idx_"@ + name + "_ts ON "@ + name + " (timestamp)"@
}

/// Builds the timestamp index statement for the route target table.
pub fn route_index_sql(name: &str) -> (r: String)
    ensures
        r@ == spec_route_index_sql(name@),
{
    let mut out = String::new();
    out.append("CREATE INDEX IF NOT EXISTS idx_");
    out.append(name);
    out.append("_ts ON ");
    out.append(name);
    out.append(" (timestamp)");
    proof {
        assert(out@ =~= spec_route_index_sql(name@));
    }
    out
}

} // verus!
