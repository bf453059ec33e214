use backend::events::{basename, summary_data_point, WorkoutBuilder};
use backend::manifest::{ColumnDefinition, TableConfig};

fn col(
    name: &str,
    hk_identifier: Option<&str>,
    hk_attribute: Option<&str>,
    source: Option<&str>,
) -> ColumnDefinition {
    ColumnDefinition {
        field_name: name.to_string(),
        hk_identifier: hk_identifier.map(|s| s.to_string()),
        hk_attribute: hk_attribute.map(|s| s.to_string()),
        is_primary_key: false,
        extraction_source: source.map(|s| s.to_string()),
        aggregate: "raw".to_string(),
        data_type: "TEXT".to_string(),
        expression: None,
    }
}

#[test]
fn test_summary_data_point() {
    let cfg = TableConfig {
        description: None,
        columns: vec![
            col("active_energy", None, Some("activeEnergyBurned"), None),
            col("steps", None, Some("stepCount"), None),
        ],
    };
    let attrs = vec![
        ("activeEnergyBurned".to_string(), "520".to_string()),
        ("dateComponents".to_string(), "2024-01-01".to_string()),
        ("stepCount".to_string(), "9000".to_string()),
    ];
    let dp = summary_data_point(&attrs, &cfg);
    assert_eq!(dp.table_name, "activity_summaries");
    assert_eq!(
        dp.columns,
        vec![
            ("active_energy".to_string(), "520".to_string()),
            ("steps".to_string(), "9000".to_string()),
        ]
    );
}

#[test]
fn test_workout_builder_full_element() {
    let cfg = TableConfig {
        description: None,
        columns: vec![
            col("session_id", None, Some("workoutActivityType"), Some("attribute")),
            col(
                "total_distance",
                Some("HKQuantityTypeIdentifierDistanceWalkingRunning"),
                None,
                Some("statistics_sum"),
            ),
            col("weather", Some("HKWeatherTemperature"), None, Some("metadata_value")),
            col("route_file", None, None, Some("route_ref")),
        ],
    };
    let mut wb = WorkoutBuilder::new();
    let attrs = vec![
        ("workoutActivityType".to_string(), "HKWorkoutActivityTypeRunning".to_string()),
        ("startDate".to_string(), "2024-01-01 10:00:00 -0500".to_string()),
        ("endDate".to_string(), "2024-01-01 11:00:00 -0500".to_string()),
        ("creationDate".to_string(), "2024-01-01 11:05:00 -0500".to_string()),
    ];
    wb.apply_attributes(&attrs, &cfg);
    wb.apply_statistics("HKQuantityTypeIdentifierDistanceWalkingRunning", "10.5", &cfg);
    wb.apply_statistics("HKQuantityTypeIdentifierActiveEnergyBurned", "500", &cfg);
    wb.apply_metadata("HKWeatherTemperature", "18 degC", &cfg);
    wb.apply_file_reference("workout-routes/route_2024.gpx", &cfg);
    let dp = wb.finish();
    assert_eq!(dp.table_name, "workouts");
    let get = |key: &str| {
        dp.columns
            .iter()
            .find(|(k, _)| k == key)
            .map(|(_, v)| v.clone())
            .unwrap()
    };
    assert_eq!(get("session_id"), "HKWorkoutActivityTypeRunning");
    assert_eq!(get("start_date"), "2024-01-01T15:00:00+00:00");
    assert_eq!(get("end_date"), "2024-01-01T16:00:00+00:00");
    assert_eq!(get("creation_date"), "2024-01-01T16:05:00+00:00");
    assert_eq!(get("total_distance"), "10.5");
    assert_eq!(get("weather"), "18 degC");
    assert_eq!(get("route_file"), "route_2024.gpx");
}

#[test]
fn test_summary_attribute_overwrites_earlier_value() {
    let cfg = TableConfig {
        description: None,
        columns: vec![col("steps", None, Some("stepCount"), None)],
    };
    let attrs = vec![
        ("stepCount".to_string(), "100".to_string()),
        ("stepCount".to_string(), "250".to_string()),
    ];
    let dp = summary_data_point(&attrs, &cfg);
    assert_eq!(dp.columns, vec![("steps".to_string(), "250".to_string())]);
}

#[test]
fn test_basename() {
    assert_eq!(basename("workout-routes/route_2024.gpx"), "route_2024.gpx");
    assert_eq!(basename("route.gpx"), "route.gpx");
    assert_eq!(basename("a/b/c.gpx"), "c.gpx");
    assert_eq!(basename("dir/"), "");
}
