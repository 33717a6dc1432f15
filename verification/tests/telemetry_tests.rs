use stagebadger::telemetry::{apply_telemetry_scan, scan_telemetry_line, would_change, TelemetryCounters, TelemetryField};

fn parse_rates(values: &[(TelemetryField, String)]) -> Vec<Option<f32>> {
    values
        .iter()
        .map(|(field, text)| match field {
            TelemetryField::Frame | TelemetryField::Drop => None,
            _ => text.parse::<f32>().ok(),
        })
        .collect()
}

#[test]
fn test_parse_ffmpeg_telemetry_line() {
    let line = "frame=123 fps=29.97 bitrate=5800.4kbits/s speed=1.01x drop=2";
    let scan = scan_telemetry_line(line);
    let entries: Vec<(TelemetryField, String)> =
        scan.entries.iter().map(|e| (e.field, e.value.clone())).collect();
    let rates = parse_rates(&entries);
    let parsed: Vec<bool> = rates.iter().map(|r| r.is_some()).collect();
    let mut counters = TelemetryCounters { frame: None, dropped_frames: 0, errors: 0, last_line: None };
    let changed = apply_telemetry_scan(&mut counters, line, &scan, &parsed);
    assert!(changed);
    assert_eq!(counters.frame, Some(123));
    assert_eq!(rates[1], Some(29.97));
    assert_eq!(counters.dropped_frames, 2);
    assert_eq!(rates[3], Some(1.01));
}

#[test]
fn telemetry_scan_fields() {
    let scan = scan_telemetry_line("frame= 42 fps= 30 q=28.0 size= 1024kB bitrate=800.0kb/s speed=0.99x");
    let entries: Vec<(TelemetryField, String)> =
        scan.entries.iter().map(|e| (e.field, e.value.clone())).collect();
    assert_eq!(
        entries,
        vec![
            (TelemetryField::Frame, "42".to_string()),
            (TelemetryField::Fps, "30".to_string()),
            (TelemetryField::Bitrate, "800.0".to_string()),
            (TelemetryField::Speed, "0.99".to_string()),
        ]
    );
    assert!(!scan.reports_error);
}

#[test]
fn telemetry_errors_and_redaction() {
    let line = "Error opening output rtmp://host/app/abcdefghijk";
    let scan = scan_telemetry_line(line);
    assert!(scan.entries.is_empty());
    assert!(scan.reports_error);
    let mut counters = TelemetryCounters { frame: Some(1), dropped_frames: 0, errors: 4, last_line: None };
    assert!(apply_telemetry_scan(&mut counters, line, &scan, &Vec::new()));
    assert_eq!(counters.errors, 5);
    assert_eq!(counters.frame, Some(1));
    assert_eq!(counters.last_line.as_deref(), Some("Error opening output rtmp://host/app/abcd...[redacted]"));

    let quiet = scan_telemetry_line("Press [q] to stop");
    let mut c2 = TelemetryCounters { frame: None, dropped_frames: 0, errors: 0, last_line: None };
    assert!(!apply_telemetry_scan(&mut c2, "Press [q] to stop", &quiet, &Vec::new()));
    assert_eq!(c2.last_line, None);
}

#[test]
fn change_prediction_matches_the_fold() {
    let counters = TelemetryCounters { frame: None, dropped_frames: 0, errors: 0, last_line: None };
    let quiet = scan_telemetry_line("frame=abc fps=x");
    assert!(!would_change(&counters, &quiet, &vec![false, false]));
    assert!(would_change(&counters, &quiet, &vec![false, true]));
    let frame = scan_telemetry_line("frame=7");
    assert!(would_change(&counters, &frame, &vec![false]));
}
