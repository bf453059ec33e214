use backend::ingest::{build_record_mappings, extract_record_data, insert_sql, Ingestor};
use backend::manifest::{ColumnDefinition, Manifest, TableConfig, TableEntry};
use backend::query::{aggregate_sql, count_sql, query_table_sql};
use backend::schema::{create_table_sql, migration_statements, start_date_index_sql};
use quick_xml::events::Event;
use quick_xml::Reader;
use sqlx::{AssertSqlSafe, Connection, Row, SqliteConnection};

fn record_column(name: &str, hk: &str, data_type: &str, aggregate: &str) -> ColumnDefinition {
    ColumnDefinition {
        field_name: name.to_string(),
        hk_identifier: Some(hk.to_string()),
        hk_attribute: None,
        is_primary_key: false,
        extraction_source: None,
        aggregate: aggregate.to_string(),
        data_type: data_type.to_string(),
        expression: None,
    }
}

fn scenario_manifest() -> Manifest {
    Manifest {
        settings: None,
        user_profile: None,
        tables: vec![TableEntry {
            name: "records".to_string(),
            config: TableConfig {
                description: None,
                columns: vec![
                    record_column(
                        "heart_rate",
                        "HKQuantityTypeIdentifierHeartRate",
                        "REAL",
                        "avg",
                    ),
                    record_column(
                        "step_count",
                        "HKQuantityTypeIdentifierStepCount",
                        "INTEGER",
                        "sum",
                    ),
                ],
            },
        }],
        external_sources: None,
    }
}

const SCENARIO_XML: &str = r#"
<HealthData>
 <Record type="HKQuantityTypeIdentifierHeartRate" creationDate="2024-01-01 10:00:00 -0500" startDate="2024-01-01 10:00:00 -0500" endDate="2024-01-01 10:01:00 -0500" value="60"/>
 <Record type="HKQuantityTypeIdentifierHeartRate" creationDate="2024-01-01 10:05:00 -0500" startDate="2024-01-01 10:05:00 -0500" endDate="2024-01-01 10:06:00 -0500" value="80"/>
 <Record type="HKQuantityTypeIdentifierStepCount" creationDate="2024-01-01 10:10:00 -0500" startDate="2024-01-01 10:10:00 -0500" endDate="2024-01-01 10:15:00 -0500" value="500"/>
</HealthData>
"#;

async fn open_db(m: &Manifest) -> SqliteConnection {
    let mut conn = SqliteConnection::connect("sqlite::memory:").await.unwrap();
    for entry in &m.tables {
        let create = create_table_sql(entry.name.as_str(), &entry.config);
        sqlx::query(AssertSqlSafe(create.as_str())).execute(&mut conn).await.unwrap();
        let pragma = format!("PRAGMA table_info({})", entry.name);
        let rows = sqlx::query(AssertSqlSafe(pragma.as_str())).fetch_all(&mut conn).await.unwrap();
        let existing: Vec<String> = rows
            .iter()
            .map(|r| r.get::<String, _>("name"))
            .collect();
        for stmt in migration_statements(entry.name.as_str(), &entry.config, &existing) {
            sqlx::query(AssertSqlSafe(stmt.as_str())).execute(&mut conn).await.unwrap();
        }
        let index = start_date_index_sql(entry.name.as_str());
        sqlx::query(AssertSqlSafe(index.as_str())).execute(&mut conn).await.unwrap();
    }
    conn
}

async fn ingest_xml(conn: &mut SqliteConnection, m: &Manifest, xml: &str) -> usize {
    let mappings = build_record_mappings(m);
    let mut ingestor = Ingestor::new(m);
    let mut reader = Reader::from_str(xml);
    loop {
        match reader.read_event().unwrap() {
            Event::Empty(e) if e.name().as_ref() == "Record" => {
                let attrs: Vec<(String, String)> = e
                    .attributes()
                    .map(|a| {
                        let a = a.unwrap();
                        (a.key.as_ref().to_string(), a.value.to_string())
                    })
                    .collect();
                if let Some(dp) = extract_record_data(&attrs, &mappings) {
                    ingestor.push_point(dp);
                }
            }
            Event::Eof => break,
            _ => {}
        }
        if ingestor.needs_flush() {
            let (batches, _) = ingestor.take_batches();
            flush(conn, batches).await;
        }
    }
    let (batches, _) = ingestor.take_batches();
    flush(conn, batches).await;
    ingestor.total
}

async fn flush(conn: &mut SqliteConnection, batches: Vec<backend::ingest::TableBuffer>) {
    let mut tx = conn.begin().await.unwrap();
    for buffer in &batches {
        for dp in &buffer.rows {
            let (sql, values) = insert_sql(dp);
            let mut q = sqlx::query(AssertSqlSafe(sql.as_str()));
            for v in values {
                q = q.bind(v);
            }
            q.execute(&mut *tx).await.unwrap();
        }
    }
    tx.commit().await.unwrap();
}

#[test]
fn test_end_to_end_ingestion() {
    let rt = tokio::runtime::Runtime::new().unwrap();
    rt.block_on(async {
        let m = scenario_manifest();
        let mut conn = open_db(&m).await;

        let count = ingest_xml(&mut conn, &m, SCENARIO_XML).await;
        assert_eq!(count, 3);

        let sql = query_table_sql(&m, "records", None, false, false).unwrap();
        let rows = sqlx::query(AssertSqlSafe(sql.as_str())).bind(100i32).fetch_all(&mut conn).await.unwrap();
        assert_eq!(rows.len(), 3);

        // 10:00 in the minus-five zone is 15:00 UTC; the heart rates 60 and
        // 80 average to 70 and the steps sum to 500.
        let agg = aggregate_sql(&m, "records", "hour", false, false).unwrap();
        let agg_rows = sqlx::query(AssertSqlSafe(agg.as_str())).fetch_all(&mut conn).await.unwrap();
        assert_eq!(agg_rows.len(), 1);
        let bucket: String = agg_rows[0].get("time_bucket");
        assert_eq!(bucket, "2024-01-01T15:00:00Z");
        let hr: f64 = agg_rows[0].get("heart_rate");
        assert_eq!(hr, 70.0);
        let steps: i64 = agg_rows[0].get("step_count");
        assert_eq!(steps, 500);
    });
}

#[test]
fn test_reingest_leaves_counts_unchanged() {
    let rt = tokio::runtime::Runtime::new().unwrap();
    rt.block_on(async {
        let m = scenario_manifest();
        let mut conn = open_db(&m).await;

        ingest_xml(&mut conn, &m, SCENARIO_XML).await;
        let count_stmt = count_sql("records");
        let first: i64 = sqlx::query(AssertSqlSafe(count_stmt.as_str()))
            .fetch_one(&mut conn)
            .await
            .unwrap()
            .get(0);
        assert_eq!(first, 3);

        ingest_xml(&mut conn, &m, SCENARIO_XML).await;
        let second: i64 = sqlx::query(AssertSqlSafe(count_stmt.as_str()))
            .fetch_one(&mut conn)
            .await
            .unwrap()
            .get(0);
        assert_eq!(second, 3);

        let agg = aggregate_sql(&m, "records", "hour", false, false).unwrap();
        let agg_rows = sqlx::query(AssertSqlSafe(agg.as_str())).fetch_all(&mut conn).await.unwrap();
        assert_eq!(agg_rows.len(), 1);
        let hr: f64 = agg_rows[0].get("heart_rate");
        assert_eq!(hr, 70.0);
        let steps: i64 = agg_rows[0].get("step_count");
        assert_eq!(steps, 500);
    });
}

#[test]
fn test_schema_restart_adds_new_column_without_loss() {
    let rt = tokio::runtime::Runtime::new().unwrap();
    rt.block_on(async {
        let mut m = scenario_manifest();
        let mut conn = open_db(&m).await;
        ingest_xml(&mut conn, &m, SCENARIO_XML).await;

        // A restart with one more manifest column migrates the table
        // without touching the stored rows.
        m.tables[0].config.columns.push(record_column(
            "blood_oxygen",
            "HKQuantityTypeIdentifierOxygenSaturation",
            "REAL",
            "avg",
        ));
        let pragma = "PRAGMA table_info(records)";
        let rows = sqlx::query(pragma).fetch_all(&mut conn).await.unwrap();
        let existing: Vec<String> = rows.iter().map(|r| r.get::<String, _>("name")).collect();
        let stmts = migration_statements("records", &m.tables[0].config, &existing);
        assert_eq!(stmts, vec!["ALTER TABLE records ADD COLUMN blood_oxygen REAL".to_string()]);
        for stmt in stmts {
            sqlx::query(AssertSqlSafe(stmt.as_str())).execute(&mut conn).await.unwrap();
        }

        let count_stmt = count_sql("records");
        let count: i64 = sqlx::query(AssertSqlSafe(count_stmt.as_str())).fetch_one(&mut conn).await.unwrap().get(0);
        assert_eq!(count, 3);
        let rows = sqlx::query(pragma).fetch_all(&mut conn).await.unwrap();
        let names: Vec<String> = rows.iter().map(|r| r.get::<String, _>("name")).collect();
        assert!(names.contains(&"blood_oxygen".to_string()));
        let hr_sum: f64 = sqlx::query("SELECT SUM(heart_rate) FROM records")
            .fetch_one(&mut conn)
            .await
            .unwrap()
            .get(0);
        assert_eq!(hr_sum, 140.0);
    });
}
