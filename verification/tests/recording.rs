use spectraguard::models::{AnomalyType, EventKind, RecordingFileSummary, TelemetryKind};
use spectraguard::recording::{
    canonical_kind, is_blank, legacy_kind, migrated_alert_type, sort_newest_first, summarize_lines,
    ParsedRecordingLine, RecordingEventKind, RecordingMetrics,
};

fn line(recorded_at_ms: u64, event_kind: RecordingEventKind) -> ParsedRecordingLine {
    ParsedRecordingLine { recorded_at_ms, event_kind }
}

#[test]
fn session_metrics_from_legacy_entries() {
    let lines = [
        line(100, legacy_kind(TelemetryKind::Occupancy)),
        line(200, legacy_kind(TelemetryKind::Alert)),
        line(300, legacy_kind(TelemetryKind::Anomaly)),
        line(450, legacy_kind(TelemetryKind::IgorAssessment)),
    ];
    let summary = summarize_lines(&lines);

    assert_eq!(summary.started_at_ms, Some(100));
    assert_eq!(summary.ended_at_ms, Some(450));
    assert_eq!(summary.event_count, 4);
    assert_eq!(summary.alert_count, 1);
    assert_eq!(summary.anomaly_count, 1);
    assert_eq!(summary.igor_count, 1);
}

#[test]
fn session_metrics_from_canonical_entries() {
    let lines = [
        line(100, canonical_kind(EventKind::SweepData)),
        line(200, canonical_kind(EventKind::OccupancyUpdate)),
        line(300, canonical_kind(EventKind::AlertEvent)),
        line(400, canonical_kind(EventKind::IgorAnalysis)),
    ];
    let summary = summarize_lines(&lines);

    assert_eq!(summary.started_at_ms, Some(100));
    assert_eq!(summary.ended_at_ms, Some(400));
    assert_eq!(summary.event_count, 4);
    assert_eq!(summary.alert_count, 1);
    assert_eq!(summary.anomaly_count, 0);
    assert_eq!(summary.igor_count, 1);
}

#[test]
fn empty_session_has_no_span() {
    let summary = summarize_lines(&[]);
    assert_eq!(summary, RecordingMetrics::empty());
    assert_eq!(summary.started_at_ms, None);
    assert_eq!(summary.event_count, 0);
}

#[test]
fn blank_lines_are_recognised() {
    assert!(is_blank(""));
    assert!(is_blank("  \t "));
    assert!(!is_blank(" {} "));
}

#[test]
fn migrated_anomalies_become_lowercase_alert_types() {
    assert_eq!(migrated_alert_type(AnomalyType::PowerSpike), "anomaly_powerspike");
    assert_eq!(migrated_alert_type(AnomalyType::BurstActivity), "anomaly_burstactivity");
    assert_eq!(migrated_alert_type(AnomalyType::AbnormalOccupancy), "anomaly_abnormaloccupancy");
    assert_eq!(migrated_alert_type(AnomalyType::RepeatedPulses), "anomaly_repeatedpulses");
}

fn summary(session_id: &str, modified_at_ms: u64) -> RecordingFileSummary {
    RecordingFileSummary {
        session_id: session_id.to_string(),
        file_path: format!("recordings/{session_id}.jsonl"),
        size_bytes: 10,
        modified_at_ms,
        started_at_ms: None,
        ended_at_ms: None,
        event_count: None,
        alert_count: None,
        anomaly_count: None,
        igor_count: None,
    }
}

#[test]
fn recordings_are_listed_newest_first_keeping_ties_in_order() {
    let sorted = sort_newest_first(vec![
        summary("a", 100),
        summary("b", 300),
        summary("c", 100),
        summary("d", 200),
    ]);
    let ids = sorted.iter().map(|s| s.session_id.as_str()).collect::<Vec<_>>();
    assert_eq!(ids, vec!["b", "d", "a", "c"]);
    assert!(sort_newest_first(Vec::new()).is_empty());
}
