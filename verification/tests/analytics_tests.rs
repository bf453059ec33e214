use backend::analytics::{
    elevation_gain_milli, heart_rate_zone, recovery_score, recovery_status, sleep_summary,
    zone_counts, SleepRow,
};

#[test]
fn test_zone_thresholds() {
    // Against a maximum of 200: below 60 percent is zone 1, each further
    // tenth the next zone, from 90 percent zone 5.
    assert_eq!(heart_rate_zone(100, 200), 1);
    assert_eq!(heart_rate_zone(119, 200), 1);
    assert_eq!(heart_rate_zone(120, 200), 2);
    assert_eq!(heart_rate_zone(130, 200), 2);
    assert_eq!(heart_rate_zone(150, 200), 3);
    assert_eq!(heart_rate_zone(170, 200), 4);
    assert_eq!(heart_rate_zone(180, 200), 5);
    assert_eq!(heart_rate_zone(190, 200), 5);
}

#[test]
fn test_zone_counts_partition_samples() {
    let samples = vec![100, 130, 150, 170, 190];
    let counts = zone_counts(&samples, 200);
    assert_eq!(counts.z1, 1);
    assert_eq!(counts.z2, 1);
    assert_eq!(counts.z3, 1);
    assert_eq!(counts.z4, 1);
    assert_eq!(counts.z5, 1);
    assert_eq!(counts.z1 + counts.z2 + counts.z3 + counts.z4 + counts.z5, samples.len());
}

#[test]
fn test_recovery_score_with_penalty() {
    // Baseline HRV 50, current 60, baseline RHR 50, current 55: the raw
    // score 120 loses 25 points of elevation penalty and clamps to 95.
    let score = recovery_score(50_000, 60_000, 50_000, 55_000);
    assert_eq!(score, 95);
    assert_eq!(recovery_status(score), "Optimal");
}

#[test]
fn test_recovery_score_edges() {
    assert_eq!(recovery_score(0, 60_000, 0, 0), 0);
    assert_eq!(recovery_score(50_000, 60_000, 50_000, 50_000), 100);
    assert_eq!(recovery_score(50_000, 10_000, 50_000, 70_000), 0);
    assert_eq!(recovery_status(80), "Good");
    assert_eq!(recovery_status(31), "Strained");
    assert_eq!(recovery_status(30), "Recovery Needed");
}

#[test]
fn test_sleep_summary_breakdown() {
    let rows = vec![
        SleepRow {
            stage: 4,
            start: "2024-01-01T22:00:00+00:00".to_string(),
            end: "2024-01-01T23:00:00+00:00".to_string(),
        },
        SleepRow {
            stage: 5,
            start: "2024-01-01T23:00:00+00:00".to_string(),
            end: "2024-01-01T23:30:00+00:00".to_string(),
        },
        SleepRow {
            stage: 4,
            start: "2024-01-01T23:30:00+00:00".to_string(),
            end: "2024-01-02T00:30:00+00:00".to_string(),
        },
        SleepRow {
            stage: 9,
            start: "broken".to_string(),
            end: "2024-01-02T00:30:00+00:00".to_string(),
        },
    ];
    let summary = sleep_summary(&rows);
    assert_eq!(summary.total_seconds, 9000);
    assert_eq!(
        summary.stages,
        vec![("Deep".to_string(), 7200i128), ("REM".to_string(), 1800i128)]
    );
}

#[test]
fn test_elevation_gain_counts_only_rises() {
    let elevations: Vec<i64> = vec![10_000, 12_000, 11_000, 15_000];
    assert_eq!(elevation_gain_milli(&elevations), 6_000);
    assert_eq!(elevation_gain_milli(&vec![5_000]), 0);
    assert_eq!(elevation_gain_milli(&Vec::new()), 0);
}
