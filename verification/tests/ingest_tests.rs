use backend::ingest::{build_record_mappings, extract_record_data, insert_sql, Ingestor};
use backend::manifest::{ColumnDefinition, Manifest, TableConfig, TableEntry};

fn record_column(name: &str, hk: &str, data_type: &str, aggregate: &str) -> ColumnDefinition {
    ColumnDefinition {
        field_name: name.to_string(),
        hk_identifier: Some(hk.to_string()),
        hk_attribute: None,
        is_primary_key: false,
        extraction_source: None,
        aggregate: aggregate.to_string(),
        data_type: data_type.to_string(),
        expression: None,
    }
}

fn records_manifest() -> Manifest {
    Manifest {
        settings: None,
        user_profile: None,
        tables: vec![TableEntry {
            name: "records".to_string(),
            config: TableConfig {
                description: None,
                columns: vec![
                    record_column(
                        "heart_rate",
                        "HKQuantityTypeIdentifierHeartRate",
                        "REAL",
                        "avg",
                    ),
                    record_column(
                        "step_count",
                        "HKQuantityTypeIdentifierStepCount",
                        "INTEGER",
                        "sum",
                    ),
                ],
            },
        }],
        external_sources: None,
    }
}

fn record_attrs(hk: &str, value: &str, when: &str) -> Vec<(String, String)> {
    vec![
        ("type".to_string(), hk.to_string()),
        ("value".to_string(), value.to_string()),
        ("creationDate".to_string(), when.to_string()),
        ("startDate".to_string(), when.to_string()),
        ("endDate".to_string(), when.to_string()),
    ]
}

#[test]
fn test_build_record_mappings() {
    let m = records_manifest();
    let mappings = build_record_mappings(&m);
    assert_eq!(mappings.len(), 2);
    assert_eq!(mappings[0].hk_id, "HKQuantityTypeIdentifierHeartRate");
    assert_eq!(mappings[0].table, "records");
    assert_eq!(mappings[0].column, "heart_rate");
    assert_eq!(mappings[1].column, "step_count");
}

#[test]
fn test_extract_record_data_builds_row() {
    let m = records_manifest();
    let mappings = build_record_mappings(&m);
    let attrs = record_attrs(
        "HKQuantityTypeIdentifierHeartRate",
        "60",
        "2024-01-01 10:00:00 -0500",
    );
    let dp = extract_record_data(&attrs, &mappings).unwrap();
    assert_eq!(dp.table_name, "records");
    assert_eq!(dp.columns.len(), 5);
    assert_eq!(dp.columns[0].0, "uuid");
    assert_eq!(dp.columns[0].1.len(), 64);
    assert_eq!(dp.columns[1], ("creation_date".to_string(), "2024-01-01T15:00:00+00:00".to_string()));
    assert_eq!(dp.columns[2], ("start_date".to_string(), "2024-01-01T15:00:00+00:00".to_string()));
    assert_eq!(dp.columns[3], ("end_date".to_string(), "2024-01-01T15:00:00+00:00".to_string()));
    assert_eq!(dp.columns[4], ("heart_rate".to_string(), "60".to_string()));
}

#[test]
fn test_extract_record_data_unmapped_type() {
    let m = records_manifest();
    let mappings = build_record_mappings(&m);
    let attrs = record_attrs(
        "HKQuantityTypeIdentifierBodyMass",
        "70",
        "2024-01-01 10:00:00 -0500",
    );
    assert!(extract_record_data(&attrs, &mappings).is_none());
}

#[test]
fn test_reingest_yields_identical_rows() {
    let m = records_manifest();
    let mappings = build_record_mappings(&m);
    let attrs = record_attrs(
        "HKQuantityTypeIdentifierStepCount",
        "500",
        "2024-01-01 10:10:00 -0500",
    );
    let first = extract_record_data(&attrs, &mappings).unwrap();
    let second = extract_record_data(&attrs, &mappings).unwrap();
    assert_eq!(first.columns, second.columns);
}

#[test]
fn test_insert_sql_shape() {
    let m = records_manifest();
    let mappings = build_record_mappings(&m);
    let attrs = record_attrs(
        "HKQuantityTypeIdentifierHeartRate",
        "60",
        "2024-01-01 10:00:00 -0500",
    );
    let dp = extract_record_data(&attrs, &mappings).unwrap();
    let (sql, values) = insert_sql(&dp);
    assert_eq!(
        sql,
        "INSERT OR IGNORE INTO records (uuid, creation_date, start_date, end_date, heart_rate) VALUES (?, ?, ?, ?, ?)"
    );
    assert_eq!(values.len(), 5);
    assert_eq!(values[4], "60");
}

#[test]
fn test_ingestor_buffers_and_counts() {
    let m = records_manifest();
    let mut ing = Ingestor::new(&m);
    assert_eq!(ing.batch_size, 5000);
    let mappings = build_record_mappings(&m);
    for (value, when) in [
        ("60", "2024-01-01 10:00:00 -0500"),
        ("80", "2024-01-01 10:05:00 -0500"),
    ] {
        let attrs = record_attrs("HKQuantityTypeIdentifierHeartRate", value, when);
        let dp = extract_record_data(&attrs, &mappings).unwrap();
        ing.push_point(dp);
    }
    let attrs = record_attrs(
        "HKQuantityTypeIdentifierStepCount",
        "500",
        "2024-01-01 10:10:00 -0500",
    );
    let dp = extract_record_data(&attrs, &mappings).unwrap();
    ing.push_point(dp);
    assert!(!ing.needs_flush());
    let (batches, count) = ing.take_batches();
    assert_eq!(count, 3);
    assert_eq!(ing.total, 3);
    assert_eq!(batches.len(), 1);
    assert_eq!(batches[0].table, "records");
    assert_eq!(batches[0].rows.len(), 3);
    let (_, second_count) = ing.take_batches();
    assert_eq!(second_count, 0);
    assert_eq!(ing.total, 3);
}

#[test]
fn test_repeated_attribute_last_wins() {
    let m = records_manifest();
    let mappings = build_record_mappings(&m);
    let mut attrs = record_attrs(
        "HKQuantityTypeIdentifierHeartRate",
        "60",
        "2024-01-01 10:00:00 -0500",
    );
    attrs.push(("value".to_string(), "75".to_string()));
    let dp = extract_record_data(&attrs, &mappings).unwrap();
    assert_eq!(dp.columns[4], ("heart_rate".to_string(), "75".to_string()));
}

#[test]
fn test_small_batch_size_triggers_flush() {
    let mut m = records_manifest();
    m.settings = Some(backend::manifest::Settings {
        batch_size: Some(2),
        timezone: None,
        import_dirs: None,
    });
    let mut ing = Ingestor::new(&m);
    let mappings = build_record_mappings(&m);
    for (value, when) in [
        ("60", "2024-01-01 10:00:00 -0500"),
        ("80", "2024-01-01 10:05:00 -0500"),
    ] {
        let attrs = record_attrs("HKQuantityTypeIdentifierHeartRate", value, when);
        let dp = extract_record_data(&attrs, &mappings).unwrap();
        ing.push_point(dp);
    }
    assert!(ing.needs_flush());
}
