use vstd::prelude::*;

verus! {

use vstd::string::StringExecFns;

/// One column of a manifest-defined table.
pub struct ColumnDefinition {
    /// Database column name.
    pub field_name: String,
    /// Domain record type this column captures, e.g.
    /// "HKQuantityTypeIdentifierHeartRate".
    pub hk_identifier: Option<String>,
    /// XML attribute name used for workouts and daily summaries.
    pub hk_attribute: Option<String>,
    /// At most one column per table may be the primary key.
    pub is_primary_key: bool,
    /// Which piece of the source element produces the value: "value"
    /// (the default when absent), "attribute", "statistics_sum",
    /// "metadata_value" or "route_ref".
    pub extraction_source: Option<String>,
    /// How the column is aggregated in time-bucket queries: "raw" (default),
    /// "avg", "sum", "min", "max" or "count".
    pub aggregate: String,
    /// SQL type, passed verbatim into DDL.
    pub data_type: String,
    /// Optional SQL expression for a virtual generated column.
    pub expression: Option<String>,
}

/// A manifest table: a description plus its ordered columns.
pub struct TableConfig {
    pub description: Option<String>,
    pub columns: Vec<ColumnDefinition>,
}

/// One named table of the manifest.
pub struct TableEntry {
    pub name: String,
    pub config: TableConfig,
}

/// Optional per-deployment settings.
pub struct Settings {
    pub batch_size: Option<usize>,
    pub timezone: Option<String>,
    pub import_dirs: Option<Vec<String>>,
}

/// Heart-rate bounds that the analytics use.
pub struct UserProfile {
    pub max_heart_rate: Option<i32>,
    pub resting_heart_rate: Option<i32>,
}

/// Mapping from one CSV header key to a database column.
pub struct EcgMetadataMap {
    pub csv_key: String,
    pub db_column: String,
    pub data_type: String,
}

/// Where the raw voltage trace of an ECG lands.
pub struct EcgPayload {
    pub db_column: String,
    pub data_type: String,
    pub source_unit: String,
}

/// Configuration of the ECG companion-file importer.
pub struct EcgConfig {
    pub folder: String,
    pub file_pattern: String,
    pub target_table: String,
    pub metadata_map: Vec<EcgMetadataMap>,
    pub payload: EcgPayload,
}

/// Mapping from one GPX tag to a database column.
pub struct RouteColumn {
    pub xml_tag: String,
    pub db_column: String,
    pub data_type: String,
}

/// Configuration of the GPX route importer.
pub struct RouteConfig {
    pub folder: String,
    pub file_pattern: String,
    pub target_table: String,
    pub columns: Vec<RouteColumn>,
}

/// Optional companion-file importers.
pub struct ExternalSources {
    pub ecg: Option<EcgConfig>,
    pub routes: Option<RouteConfig>,
}

/// The manifest: the single source of truth for the schema.
pub struct Manifest {
    pub settings: Option<Settings>,
    pub user_profile: Option<UserProfile>,
    pub tables: Vec<TableEntry>,
    pub external_sources: Option<ExternalSources>,
}

/// Table names may not repeat: lookups by name must be unambiguous.
pub open spec fn table_names_unique(tables: Seq<TableEntry>) -> bool {
    forall|i: int, j: int|
        0 <= i < j < tables.len() ==> tables[i].name@ != tables[j].name@
}

impl Manifest {
    /// A well-formed manifest names each table once.
    pub open spec fn wf(&self) -> bool {
        table_names_unique(self.tables@)
    }

    /// The index of the table called `name`, if any.
    pub open spec fn spec_table_index(&self, name: Seq<char>) -> Option<int> {
        if exists|i: int| 0 <= i < self.tables@.len() && self.tables@[i].name@ == name {
            Some(choose|i: int| 0 <= i < self.tables@.len() && self.tables@[i].name@ == name)
        } else {
            None
        }
    }

    /// Whether the manifest declares a table called `name`.
    pub open spec fn spec_has_table(&self, name: Seq<char>) -> bool {
        exists|i: int| 0 <= i < self.tables@.len() && self.tables@[i].name@ == name
    }

    /// Looks the table up by name.
    pub fn find_table(&self, name: &str) -> (r: Option<&TableConfig>)
        ensures
            r is Some <==> self.spec_has_table(name@),
            r matches Some(cfg) ==> exists|i: int|
                0 <= i < self.tables@.len() && self.tables@[i].name@ == name@
                    && *cfg == self.tables@[i].config,
    {
        let needle = name.to_owned();
        let n = self.tables.len();
        for i in 0..n
            invariant
                needle@ == name@,
                n == self.tables@.len(),
                forall|j: int| 0 <= j < i ==> self.tables@[j].name@ != name@,
        {
            if self.tables[i].name == needle {
                return Some(&self.tables[i].config);
            }
        }
        None
    }
}

/// The aggregation mode a column gets when the manifest does not name one.
pub fn default_aggregate() -> (r: String)
    ensures
        r@ == "raw"@,
{
    String::from_str("raw")
}

} // verus!
