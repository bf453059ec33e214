use backend::ecg::{
    calculate_ecg_hr_milli, ecg_insert_sql, numeric_samples, parse_ecg_lines, parse_sample_rate,
    values_sum,
};
use backend::events::key_lookup;
use backend::ingest::{build_record_mappings, extract_record_data, insert_sql, Ingestor};
use backend::manifest::{
    ColumnDefinition, EcgConfig, EcgMetadataMap, EcgPayload, ExternalSources, Manifest,
    RouteColumn, RouteConfig, TableConfig, TableEntry,
};
use backend::query::count_sql;
use backend::route::{route_insert_sql, route_row_values, RouteCollector};
use backend::schema::{
    create_table_sql, ecg_table_sql, migration_statements, route_index_sql, route_table_sql,
};
use backend::text::join;
use quick_xml::events::Event;
use quick_xml::Reader;
use sqlx::{AssertSqlSafe, Connection, Row, SqliteConnection};

fn sample_manifest() -> Manifest {
    Manifest {
        settings: None,
        user_profile: None,
        tables: vec![TableEntry {
            name: "vitals".to_string(),
            config: TableConfig {
                description: None,
                columns: vec![ColumnDefinition {
                    field_name: "heart_rate".to_string(),
                    hk_identifier: Some("HKQuantityTypeIdentifierHeartRate".to_string()),
                    hk_attribute: None,
                    is_primary_key: false,
                    extraction_source: None,
                    aggregate: "avg".to_string(),
                    data_type: "REAL".to_string(),
                    expression: None,
                }],
            },
        }],
        external_sources: Some(ExternalSources {
            ecg: Some(EcgConfig {
                folder: "electrocardiograms".to_string(),
                file_pattern: "*.csv".to_string(),
                target_table: "ecg_recordings".to_string(),
                metadata_map: vec![
                    EcgMetadataMap {
                        csv_key: "Recorded Date".to_string(),
                        db_column: "recorded_at".to_string(),
                        data_type: "TEXT".to_string(),
                    },
                    EcgMetadataMap {
                        csv_key: "Sample Rate".to_string(),
                        db_column: "sample_rate".to_string(),
                        data_type: "TEXT".to_string(),
                    },
                ],
                payload: EcgPayload {
                    db_column: "voltage_samples".to_string(),
                    data_type: "TEXT".to_string(),
                    source_unit: "microvolts".to_string(),
                },
            }),
            routes: Some(RouteConfig {
                folder: "workout-routes".to_string(),
                file_pattern: "*.gpx".to_string(),
                target_table: "route_points".to_string(),
                columns: vec![
                    RouteColumn {
                        xml_tag: "lat".to_string(),
                        db_column: "latitude".to_string(),
                        data_type: "REAL".to_string(),
                    },
                    RouteColumn {
                        xml_tag: "lon".to_string(),
                        db_column: "longitude".to_string(),
                        data_type: "REAL".to_string(),
                    },
                    RouteColumn {
                        xml_tag: "ele".to_string(),
                        db_column: "elevation".to_string(),
                        data_type: "REAL".to_string(),
                    },
                    RouteColumn {
                        xml_tag: "time".to_string(),
                        db_column: "timestamp".to_string(),
                        data_type: "TEXT".to_string(),
                    },
                ],
            }),
        }),
    }
}

fn generated_export_xml() -> String {
    let mut xml = String::new();
    xml.push_str("<?xml version=\"1.0\" encoding=\"UTF-8\"?>\n");
    xml.push_str("<HealthData locale=\"en_US\">\n");
    xml.push_str(" <ExportDate value=\"2024-01-01 12:00:00 -0500\"/>\n");
    for i in 0..50 {
        let hr = 60 + i;
        let line = format!(
            " <Record type=\"HKQuantityTypeIdentifierHeartRate\" sourceName=\"Generator\" unit=\"count/min\" creationDate=\"2024-01-01 00:{i:02}:00 +0000\" startDate=\"2024-01-01 00:{i:02}:00 +0000\" endDate=\"2024-01-01 00:{i:02}:00 +0000\" value=\"{hr}.0\" />\n",
        );
        xml.push_str(&line);
    }
    xml.push_str("</HealthData>\n");
    xml
}

#[test]
fn test_sample_export_ingestion() {
    let rt = tokio::runtime::Runtime::new().unwrap();
    rt.block_on(async {
        let m = sample_manifest();
        let mut conn = SqliteConnection::connect("sqlite::memory:").await.unwrap();

        for entry in &m.tables {
            let create = create_table_sql(entry.name.as_str(), &entry.config);
            sqlx::query(AssertSqlSafe(create)).execute(&mut conn).await.unwrap();
            let pragma = format!("PRAGMA table_info({})", entry.name);
            let rows = sqlx::query(AssertSqlSafe(pragma)).fetch_all(&mut conn).await.unwrap();
            let existing: Vec<String> =
                rows.iter().map(|r| r.get::<String, _>("name")).collect();
            for stmt in migration_statements(entry.name.as_str(), &entry.config, &existing) {
                sqlx::query(AssertSqlSafe(stmt)).execute(&mut conn).await.unwrap();
            }
        }
        let ext = m.external_sources.as_ref().unwrap();
        let ecg_cfg = ext.ecg.as_ref().unwrap();
        let route_cfg = ext.routes.as_ref().unwrap();
        sqlx::query(AssertSqlSafe(ecg_table_sql(ecg_cfg)))
            .execute(&mut conn)
            .await
            .unwrap();
        sqlx::query(AssertSqlSafe(route_table_sql(route_cfg)))
            .execute(&mut conn)
            .await
            .unwrap();
        sqlx::query(AssertSqlSafe(route_index_sql(&route_cfg.target_table)))
            .execute(&mut conn)
            .await
            .unwrap();

        // Ingest the generated export.
        let xml = generated_export_xml();
        let mappings = build_record_mappings(&m);
        let mut ingestor = Ingestor::new(&m);
        let mut reader = Reader::from_str(&xml);
        loop {
            match reader.read_event().unwrap() {
                Event::Empty(e) if e.name().as_ref() == "Record" => {
                    let attrs: Vec<(String, String)> = e
                        .attributes()
                        .map(|a| {
                            let a = a.unwrap();
                            (a.key.as_ref().to_string(), a.value.to_string())
                        })
                        .collect();
                    if let Some(dp) = extract_record_data(&attrs, &mappings) {
                        ingestor.push_point(dp);
                    }
                }
                Event::Eof => break,
                _ => {}
            }
        }
        let (batches, count) = ingestor.take_batches();
        assert!(count > 0, "Should process records from generated export");
        let mut tx = conn.begin().await.unwrap();
        for buffer in &batches {
            for dp in &buffer.rows {
                let (sql, values) = insert_sql(dp);
                let mut q = sqlx::query(AssertSqlSafe(sql));
                for v in values {
                    q = q.bind(v);
                }
                q.execute(&mut *tx).await.unwrap();
            }
        }
        tx.commit().await.unwrap();

        // Import a generated trace.
        let mut ecg_lines: Vec<String> = vec![
            "Recorded Date,\"2024-01-01T12:00:00Z\"".to_string(),
            "Sample Rate,\"512 Hz\"".to_string(),
            "Lead,1".to_string(),
            "Unit,microvolts".to_string(),
        ];
        for i in 0..10 {
            ecg_lines.push(format!("0.{i}"));
        }
        let parsed = parse_ecg_lines(&ecg_lines, &ecg_cfg.metadata_map);
        let values = numeric_samples(&parsed.samples);
        let mean_voltage = values_sum(&values) as f64 / 1_000_000.0 / values.len() as f64;
        let rate = parse_sample_rate(&key_lookup(&parsed.metadata, "Sample Rate").unwrap());
        assert_eq!(rate, 512);
        let hr = calculate_ecg_hr_milli(&values, rate) as f64 / 1000.0;
        let mut bind_values = vec![
            "sample_ecg.csv".to_string(),
            values.len().to_string(),
            mean_voltage.to_string(),
            hr.to_string(),
        ];
        for mm in &ecg_cfg.metadata_map {
            bind_values.push(key_lookup(&parsed.metadata, &mm.csv_key).unwrap_or_default());
        }
        bind_values.push(join(&parsed.samples, ","));
        let mut q = sqlx::query(AssertSqlSafe(ecg_insert_sql(ecg_cfg)));
        for v in bind_values {
            q = q.bind(v);
        }
        q.execute(&mut conn).await.unwrap();

        // Import a generated route.
        let gpx = "<?xml version=\"1.0\" encoding=\"UTF-8\"?>\n<gpx version=\"1.1\" creator=\"HealthTracking\">\n<trk><name>Test Route</name><trkseg>\n<trkpt lat=\"37.7749\" lon=\"-122.4194\"><ele>10.0</ele><time>2024-01-01T12:00:00Z</time></trkpt>\n</trkseg></trk></gpx>\n";
        let mut collector = RouteCollector::new();
        let mut gpx_reader = Reader::from_str(gpx);
        loop {
            match gpx_reader.read_event().unwrap() {
                Event::Start(e) => {
                    let name = e.name().as_ref().to_string();
                    let attrs: Vec<(String, String)> = e
                        .attributes()
                        .map(|a| {
                            let a = a.unwrap();
                            (a.key.as_ref().to_string(), a.value.to_string())
                        })
                        .collect();
                    collector.on_start(&name, &attrs);
                }
                Event::Text(e) => {
                    collector.on_text(&e.xml10_content());
                }
                Event::End(e) => {
                    let name = e.name().as_ref().to_string();
                    collector.on_end(&name);
                }
                Event::Eof => break,
                _ => {}
            }
        }
        let points = collector.take_points();
        let route_sql = route_insert_sql(route_cfg);
        let mut tx = conn.begin().await.unwrap();
        for point in &points {
            let values = route_row_values("sample_route.gpx", point, route_cfg);
            let mut q = sqlx::query(AssertSqlSafe(route_sql.as_str()));
            for v in values {
                q = q.bind(v);
            }
            q.execute(&mut *tx).await.unwrap();
        }
        tx.commit().await.unwrap();

        // Verify all three stores were fed.
        let vitals_count: i64 = sqlx::query(AssertSqlSafe(count_sql("vitals")))
            .fetch_one(&mut conn)
            .await
            .unwrap()
            .get(0);
        assert!(vitals_count > 0);
        assert_eq!(vitals_count, 50);

        let ecg_count: i64 = sqlx::query(AssertSqlSafe(count_sql("ecg_recordings")))
            .fetch_one(&mut conn)
            .await
            .unwrap()
            .get(0);
        assert!(ecg_count > 0);

        let route_count: i64 = sqlx::query(AssertSqlSafe(count_sql("route_points")))
            .fetch_one(&mut conn)
            .await
            .unwrap()
            .get(0);
        assert!(route_count > 0);

        let stored: (f64, String) = sqlx::query_as(
            "SELECT latitude, timestamp FROM route_points WHERE file_name = ?",
        )
        .bind("sample_route.gpx")
        .fetch_one(&mut conn)
        .await
        .unwrap();
        assert_eq!(stored.0, 37.7749);
        assert_eq!(stored.1, "2024-01-01T12:00:00Z");
    });
}

#[test]
fn test_batch_atomicity_on_failure() {
    // A failing insert inside one transaction takes the whole batch with
    // it: after the rollback none of the rows are visible.
    let rt = tokio::runtime::Runtime::new().unwrap();
    rt.block_on(async {
        let m = sample_manifest();
        let mut conn = SqliteConnection::connect("sqlite::memory:").await.unwrap();
        let ecg_cfg = m.external_sources.as_ref().unwrap().ecg.as_ref().unwrap();
        sqlx::query(AssertSqlSafe(ecg_table_sql(ecg_cfg)))
            .execute(&mut conn)
            .await
            .unwrap();

        let insert = ecg_insert_sql(ecg_cfg);
        let row = |name: &str| {
            vec![
                name.to_string(),
                "3".to_string(),
                "0.1".to_string(),
                "60.0".to_string(),
                "2024-01-01T12:00:00Z".to_string(),
                "512 Hz".to_string(),
                "0.1,0.2,0.3".to_string(),
            ]
        };

        let mut tx = conn.begin().await.unwrap();
        let mut q = sqlx::query(AssertSqlSafe(insert.as_str()));
        for v in row("trace_a.csv") {
            q = q.bind(v);
        }
        q.execute(&mut *tx).await.unwrap();
        // The file name is unique; repeating it fails the second insert.
        let mut q = sqlx::query(AssertSqlSafe(insert.as_str()));
        for v in row("trace_a.csv") {
            q = q.bind(v);
        }
        assert!(q.execute(&mut *tx).await.is_err());
        drop(tx);

        let count: i64 = sqlx::query(AssertSqlSafe(count_sql("ecg_recordings")))
            .fetch_one(&mut conn)
            .await
            .unwrap()
            .get(0);
        assert_eq!(count, 0);

        // The same rows under distinct names commit as one batch.
        let mut tx = conn.begin().await.unwrap();
        for name in ["trace_a.csv", "trace_b.csv"] {
            let mut q = sqlx::query(AssertSqlSafe(insert.as_str()));
            for v in row(name) {
                q = q.bind(v);
            }
            q.execute(&mut *tx).await.unwrap();
        }
        tx.commit().await.unwrap();
        let count: i64 = sqlx::query(AssertSqlSafe(count_sql("ecg_recordings")))
            .fetch_one(&mut conn)
            .await
            .unwrap()
            .get(0);
        assert_eq!(count, 2);
    });
}
