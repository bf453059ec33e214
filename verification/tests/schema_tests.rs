use backend::manifest::{ColumnDefinition, EcgConfig, EcgMetadataMap, EcgPayload, RouteColumn, RouteConfig, TableConfig};
use backend::schema::{
    create_table_sql, ecg_table_sql, migration_statements, route_index_sql, route_table_sql,
    start_date_index_sql,
};

fn column(name: &str, data_type: &str) -> ColumnDefinition {
    ColumnDefinition {
        field_name: name.to_string(),
        hk_identifier: None,
        hk_attribute: None,
        is_primary_key: false,
        extraction_source: None,
        aggregate: "raw".to_string(),
        data_type: data_type.to_string(),
        expression: None,
    }
}

#[test]
fn test_create_table_without_pk() {
    let table = TableConfig { description: None, columns: vec![column("heart_rate", "REAL")] };
    assert_eq!(
        create_table_sql("records", &table),
        "CREATE TABLE IF NOT EXISTS records (uuid TEXT PRIMARY KEY, creation_date TEXT, start_date TEXT, end_date TEXT)"
    );
}

#[test]
fn test_create_table_with_pk() {
    let mut pk = column("session_id", "TEXT");
    pk.is_primary_key = true;
    let table = TableConfig { description: None, columns: vec![pk, column("duration", "REAL")] };
    assert_eq!(
        create_table_sql("workouts", &table),
        "CREATE TABLE IF NOT EXISTS workouts (session_id TEXT PRIMARY KEY, creation_date TEXT, start_date TEXT, end_date TEXT)"
    );
}

#[test]
fn test_migration_adds_only_missing_columns() {
    let table = TableConfig {
        description: None,
        columns: vec![column("heart_rate", "REAL"), column("step_count", "INTEGER")],
    };
    let existing = vec![
        "uuid".to_string(),
        "creation_date".to_string(),
        "start_date".to_string(),
        "end_date".to_string(),
        "heart_rate".to_string(),
    ];
    let stmts = migration_statements("records", &table, &existing);
    assert_eq!(stmts.len(), 1);
    assert_eq!(stmts[0], "ALTER TABLE records ADD COLUMN step_count INTEGER");
}

#[test]
fn test_migration_settled_manifest_is_silent() {
    let table = TableConfig { description: None, columns: vec![column("heart_rate", "REAL")] };
    let existing = vec!["heart_rate".to_string()];
    assert!(migration_statements("records", &table, &existing).is_empty());
}

#[test]
fn test_migration_generated_column() {
    let mut virt = column("bmi", "REAL");
    virt.expression = Some("weight / (height * height)".to_string());
    let table = TableConfig { description: None, columns: vec![virt] };
    let stmts = migration_statements("vitals", &table, &Vec::new());
    assert_eq!(
        stmts[0],
        "ALTER TABLE vitals ADD COLUMN bmi REAL GENERATED ALWAYS AS (weight / (height * height)) VIRTUAL"
    );
}

#[test]
fn test_index_statements() {
    assert_eq!(
        start_date_index_sql("vitals"),
        "CREATE INDEX IF NOT EXISTS idx_vitals_start_date ON vitals (start_date)"
    );
    assert_eq!(
        route_index_sql("route_points"),
        "CREATE INDEX IF NOT EXISTS idx_route_points_ts ON route_points (timestamp)"
    );
}

#[test]
fn test_external_table_statements() {
    let ecg = EcgConfig {
        folder: "electrocardiograms".to_string(),
        file_pattern: "*.csv".to_string(),
        target_table: "ecg_recordings".to_string(),
        metadata_map: vec![EcgMetadataMap {
            csv_key: "Recorded Date".to_string(),
            db_column: "recorded_at".to_string(),
            data_type: "TEXT".to_string(),
        }],
        payload: EcgPayload {
            db_column: "voltage_samples".to_string(),
            data_type: "TEXT".to_string(),
            source_unit: "microvolts".to_string(),
        },
    };
    assert_eq!(
        ecg_table_sql(&ecg),
        "CREATE TABLE IF NOT EXISTS ecg_recordings (id INTEGER PRIMARY KEY AUTOINCREMENT, file_name TEXT UNIQUE, sample_count INTEGER, mean_voltage REAL, calculated_hr REAL, recorded_at TEXT, voltage_samples TEXT)"
    );
    let routes = RouteConfig {
        folder: "workout-routes".to_string(),
        file_pattern: "*.gpx".to_string(),
        target_table: "route_points".to_string(),
        columns: vec![
            RouteColumn {
                xml_tag: "lat".to_string(),
                db_column: "latitude".to_string(),
                data_type: "REAL".to_string(),
            },
            RouteColumn {
                xml_tag: "time".to_string(),
                db_column: "timestamp".to_string(),
                data_type: "TEXT".to_string(),
            },
        ],
    };
    assert_eq!(
        route_table_sql(&routes),
        "CREATE TABLE IF NOT EXISTS route_points (id INTEGER PRIMARY KEY AUTOINCREMENT, file_name TEXT, latitude REAL, timestamp TEXT)"
    );
}
