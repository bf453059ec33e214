use backend::jobs::JobStatus;
use backend::manifest::{RouteColumn, RouteConfig};
use backend::route::{route_insert_sql, route_row_values, RouteCollector};

fn route_cfg() -> RouteConfig {
    RouteConfig {
        folder: "workout-routes".to_string(),
        file_pattern: "*.gpx".to_string(),
        target_table: "route_points".to_string(),
        columns: vec![
            RouteColumn {
                xml_tag: "lat".to_string(),
                db_column: "latitude".to_string(),
                data_type: "REAL".to_string(),
            },
            RouteColumn {
                xml_tag: "lon".to_string(),
                db_column: "longitude".to_string(),
                data_type: "REAL".to_string(),
            },
            RouteColumn {
                xml_tag: "ele".to_string(),
                db_column: "elevation".to_string(),
                data_type: "REAL".to_string(),
            },
            RouteColumn {
                xml_tag: "time".to_string(),
                db_column: "timestamp".to_string(),
                data_type: "TEXT".to_string(),
            },
        ],
    }
}

#[test]
fn test_collector_reads_track_points() {
    let mut rc = RouteCollector::new();
    let attrs = vec![
        ("lat".to_string(), "37.7749".to_string()),
        ("lon".to_string(), "-122.4194".to_string()),
    ];
    rc.on_start("trkpt", &attrs);
    rc.on_start("ele", &Vec::new());
    rc.on_text("10.0");
    rc.on_end("ele");
    rc.on_start("time", &Vec::new());
    rc.on_text("2024-01-01T12:00:00Z");
    rc.on_end("time");
    rc.on_end("trkpt");
    assert!(!rc.needs_flush(5000));
    assert!(rc.needs_flush(1));
    let points = rc.take_points();
    assert_eq!(points.len(), 1);
    assert_eq!(
        points[0],
        vec![
            ("lat".to_string(), "37.7749".to_string()),
            ("lon".to_string(), "-122.4194".to_string()),
            ("ele".to_string(), "10.0".to_string()),
            ("time".to_string(), "2024-01-01T12:00:00Z".to_string()),
        ]
    );
    assert!(rc.take_points().is_empty());
}

#[test]
fn test_collector_ignores_text_outside_points() {
    let mut rc = RouteCollector::new();
    rc.on_start("name", &Vec::new());
    rc.on_text("Test Route");
    rc.on_end("name");
    rc.on_end("trkseg");
    assert!(rc.take_points().is_empty());
}

#[test]
fn test_route_insert_sql_and_values() {
    let cfg = route_cfg();
    assert_eq!(
        route_insert_sql(&cfg),
        "INSERT INTO route_points (file_name, latitude, longitude, elevation, timestamp) VALUES (?, ?, ?, ?, ?)"
    );
    let point = vec![
        ("lat".to_string(), "37.7749".to_string()),
        ("lon".to_string(), "-122.4194".to_string()),
        ("time".to_string(), "2024-01-01T12:00:00Z".to_string()),
    ];
    let values = route_row_values("sample_route.gpx", &point, &cfg);
    assert_eq!(
        values,
        vec![
            "sample_route.gpx".to_string(),
            "37.7749".to_string(),
            "-122.4194".to_string(),
            "".to_string(),
            "2024-01-01T12:00:00Z".to_string(),
        ]
    );
}

#[test]
fn test_job_status_terminal_states_hold() {
    let running = JobStatus::Processing { progress: 10, total: None };
    let done = running.advance(JobStatus::Completed { records_processed: 42 });
    assert!(matches!(done, JobStatus::Completed { records_processed: 42 }));
    let overwritten = done.advance(JobStatus::Processing { progress: 0, total: None });
    assert!(matches!(overwritten, JobStatus::Completed { records_processed: 42 }));
    let failed = JobStatus::Failed { error: "boom".to_string() };
    let kept = failed.advance(JobStatus::Completed { records_processed: 1 });
    assert!(matches!(kept, JobStatus::Failed { .. }));
}
