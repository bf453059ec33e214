use backend::export::csv_encode;
use backend::manifest::{ColumnDefinition, Manifest, TableConfig, TableEntry};
use backend::query::{
    aggregate_sql, count_sql, exists_by_filename_sql, query_table_sql, summary_tables, trends_sql,
};
use backend::CoreError;

fn agg_column(name: &str, data_type: &str, aggregate: &str) -> ColumnDefinition {
    ColumnDefinition {
        field_name: name.to_string(),
        hk_identifier: None,
        hk_attribute: None,
        is_primary_key: false,
        extraction_source: None,
        aggregate: aggregate.to_string(),
        data_type: data_type.to_string(),
        expression: None,
    }
}

fn manifest() -> Manifest {
    Manifest {
        settings: None,
        user_profile: None,
        tables: vec![
            TableEntry {
                name: "records".to_string(),
                config: TableConfig {
                    description: None,
                    columns: vec![
                        agg_column("heart_rate", "REAL", "avg"),
                        agg_column("step_count", "INTEGER", "sum"),
                        agg_column("note", "TEXT", "raw"),
                    ],
                },
            },
            TableEntry {
                name: "vitals".to_string(),
                config: TableConfig {
                    description: None,
                    columns: vec![
                        agg_column("heart_rate", "REAL", "avg"),
                        agg_column("note", "TEXT", "raw"),
                    ],
                },
            },
        ],
        external_sources: None,
    }
}

#[test]
fn test_query_table_sql() {
    let m = manifest();
    let sql = query_table_sql(&m, "records", None, false, false).unwrap();
    assert_eq!(sql, "SELECT * FROM records ORDER BY start_date DESC LIMIT ?");
    let sql = query_table_sql(&m, "records", Some("heart_rate"), true, true).unwrap();
    assert_eq!(
        sql,
        "SELECT * FROM records WHERE heart_rate >= ? AND heart_rate <= ? ORDER BY heart_rate DESC LIMIT ?"
    );
    let sql = query_table_sql(&m, "records", None, true, false).unwrap();
    assert_eq!(
        sql,
        "SELECT * FROM records WHERE start_date >= ? ORDER BY start_date DESC LIMIT ?"
    );
}

#[test]
fn test_query_table_sql_rejections() {
    let m = manifest();
    assert_eq!(
        query_table_sql(&m, "nope", None, false, false),
        Err(CoreError::NotFound)
    );
    assert_eq!(
        query_table_sql(&m, "records", Some("heart_rate; DROP TABLE records"), false, false),
        Err(CoreError::InvalidArgument)
    );
}

#[test]
fn test_aggregate_sql_buckets() {
    let m = manifest();
    let sql = aggregate_sql(&m, "records", "hour", false, false).unwrap();
    assert_eq!(
        sql,
        "SELECT strftime('%Y-%m-%dT%H:00:00Z', start_date) as time_bucket, AVG(heart_rate) as heart_rate, SUM(step_count) as step_count FROM records GROUP BY time_bucket ORDER BY time_bucket DESC"
    );
    let sql = aggregate_sql(&m, "records", "day", true, true).unwrap();
    assert_eq!(
        sql,
        "SELECT strftime('%Y-%m-%d', start_date) as time_bucket, AVG(heart_rate) as heart_rate, SUM(step_count) as step_count FROM records WHERE start_date >= ? AND start_date <= ? GROUP BY time_bucket ORDER BY time_bucket DESC"
    );
    assert!(aggregate_sql(&m, "records", "month", false, false).is_ok());
}

#[test]
fn test_aggregate_sql_rejections() {
    let m = manifest();
    assert_eq!(
        aggregate_sql(&m, "records", "week", false, false),
        Err(CoreError::InvalidArgument)
    );
    assert_eq!(
        aggregate_sql(&m, "nope", "hour", false, false),
        Err(CoreError::NotFound)
    );
}

#[test]
fn test_trends_sql() {
    let m = manifest();
    let sql = trends_sql(&m).unwrap().unwrap();
    assert_eq!(
        sql,
        "SELECT AVG(heart_rate) as heart_rate_avg, MIN(heart_rate) as heart_rate_min, MAX(heart_rate) as heart_rate_max FROM vitals WHERE start_date >= ? AND start_date <= ?"
    );
}

#[test]
fn test_summary_and_count_sql() {
    let m = manifest();
    let tables = summary_tables(&m);
    assert_eq!(tables, vec!["records".to_string(), "vitals".to_string()]);
    assert_eq!(count_sql("records"), "SELECT COUNT(*) FROM records");
    assert_eq!(
        exists_by_filename_sql("ecg_recordings"),
        "SELECT COUNT(*) FROM ecg_recordings WHERE file_name = ?"
    );
}

#[test]
fn test_csv_encode() {
    let rows = vec![
        vec!["uuid".to_string(), "note".to_string()],
        vec!["a1".to_string(), "plain".to_string()],
        vec!["a2".to_string(), "needs,comma".to_string()],
        vec!["a3".to_string(), "has \"quotes\"".to_string()],
    ];
    let out = csv_encode(&rows);
    assert_eq!(
        out,
        "uuid,note\na1,plain\na2,\"needs,comma\"\na3,\"has \"\"quotes\"\"\"\n"
    );
}
