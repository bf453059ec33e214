use backend::ecg::{
    calculate_ecg_hr_milli, numeric_samples, parse_decimal_micro, parse_ecg_lines,
    parse_sample_rate,
};
use backend::manifest::EcgMetadataMap;

fn meta_keys() -> Vec<EcgMetadataMap> {
    vec![
        EcgMetadataMap {
            csv_key: "Recorded Date".to_string(),
            db_column: "recorded_at".to_string(),
            data_type: "TEXT".to_string(),
        },
        EcgMetadataMap {
            csv_key: "Sample Rate".to_string(),
            db_column: "sample_rate".to_string(),
            data_type: "TEXT".to_string(),
        },
    ]
}

#[test]
fn test_parse_ecg_header_and_samples() {
    let lines: Vec<String> = vec![
        "Recorded Date,\"2024-01-01T12:00:00Z\"".to_string(),
        "Sample Rate,\"512 Hz\"".to_string(),
        "Lead,1".to_string(),
        "Unit,microvolts".to_string(),
        "".to_string(),
        "0.5".to_string(),
        "-0.25".to_string(),
        "not a number".to_string(),
        "1.75".to_string(),
    ];
    let parsed = parse_ecg_lines(&lines, &meta_keys());
    assert_eq!(
        parsed.metadata,
        vec![
            ("Recorded Date".to_string(), "2024-01-01T12:00:00Z".to_string()),
            ("Sample Rate".to_string(), "512 Hz".to_string()),
        ]
    );
    assert_eq!(parsed.samples, vec!["0.5", "-0.25", "not a number", "1.75"]);
    let values = numeric_samples(&parsed.samples);
    assert_eq!(values, vec![500_000, -250_000, 1_750_000]);
}

#[test]
fn test_parse_decimal_micro() {
    assert_eq!(parse_decimal_micro("1.5"), Some(1_500_000));
    assert_eq!(parse_decimal_micro("-0.25"), Some(-250_000));
    assert_eq!(parse_decimal_micro("42"), Some(42_000_000));
    assert_eq!(parse_decimal_micro("0.1234567"), Some(123_456));
    assert_eq!(parse_decimal_micro(""), None);
    assert_eq!(parse_decimal_micro("abc"), None);
    assert_eq!(parse_decimal_micro("1.2.3"), None);
}

#[test]
fn test_parse_sample_rate() {
    assert_eq!(parse_sample_rate("512 Hz"), 512);
    assert_eq!(parse_sample_rate("250"), 250);
    assert_eq!(parse_sample_rate("fast"), 512);
    assert_eq!(parse_sample_rate(""), 512);
}

#[test]
fn test_ecg_hr_from_synthetic_peaks() {
    // 1024 samples at 512 Hz with clear peaks every 512 samples: one beat
    // per second, so sixty beats per minute.
    let mut samples: Vec<i64> = vec![0; 1024];
    samples[100] = 1_000_000;
    samples[612] = 1_000_000;
    let hr_milli = calculate_ecg_hr_milli(&samples, 512);
    assert!((hr_milli as i64 - 60_000).abs() <= 1_000, "hr was {hr_milli}");
    assert_eq!(numeric_samples(
        &samples.iter().map(|v| format!("{}.{:06}", v / 1_000_000, v % 1_000_000)).collect()
    ).len(), 1024);
}

#[test]
fn test_refractory_window_suppresses_near_peaks() {
    // Two spikes closer than the 200 ms refractory window count as one
    // beat; the next spike far enough away closes the interval.
    let mut samples: Vec<i64> = vec![0; 1200];
    samples[100] = 1_000_000;
    samples[110] = 1_000_000;
    samples[612] = 1_000_000;
    let hr_milli = calculate_ecg_hr_milli(&samples, 512);
    assert!((hr_milli as i64 - 60_000).abs() <= 1_000, "hr was {hr_milli}");
}

#[test]
fn test_ecg_hr_degenerate_inputs() {
    assert_eq!(calculate_ecg_hr_milli(&Vec::new(), 512), 0);
    let flat: Vec<i64> = vec![100; 64];
    assert_eq!(calculate_ecg_hr_milli(&flat, 0), 0);
    let single_peak: Vec<i64> = {
        let mut v = vec![0; 64];
        v[10] = 1_000_000;
        v
    };
    assert_eq!(calculate_ecg_hr_milli(&single_peak, 512), 0);
}
