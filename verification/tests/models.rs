use spectraguard::models::{
    normalize_recorded_event, EventKind, HealthState, HealthStatus, RecordedEvent, TelemetryKind, SCHEMA_VERSION,
};

#[test]
fn recorded_event_new_constructor() {
    let recorded = RecordedEvent::new(EventKind::SweepData, 1_111);
    assert_eq!(recorded.schema_version, SCHEMA_VERSION);
    assert_eq!(recorded.timestamp_ms, 1_111);
}

#[test]
fn recorded_event_schema_version_accessible() {
    let recorded = RecordedEvent::new(EventKind::SweepData, 1_111);
    assert_eq!(recorded.schema_version(), SCHEMA_VERSION);
}

#[test]
fn normalize_current_version_is_noop() {
    let event = RecordedEvent { schema_version: SCHEMA_VERSION, timestamp_ms: 1000, event: EventKind::SweepData };
    let normalized = normalize_recorded_event(event.clone()).expect("normalization should succeed");
    assert_eq!(normalized.schema_version, event.schema_version);
    assert_eq!(normalized.timestamp_ms, event.timestamp_ms);
}

#[test]
fn normalize_older_version_updates_schema() {
    let event = RecordedEvent { schema_version: 0, timestamp_ms: 1000, event: EventKind::SweepData };
    let normalized = normalize_recorded_event(event).expect("normalization should succeed");
    assert_eq!(normalized.schema_version, SCHEMA_VERSION);
}

#[test]
fn normalize_keeps_future_versions() {
    let event = RecordedEvent { schema_version: SCHEMA_VERSION + 5, timestamp_ms: 7, event: EventKind::AlertEvent };
    let normalized = normalize_recorded_event(event.clone()).expect("normalization should succeed");
    assert_eq!(normalized, event);
}

#[test]
fn kinds_have_wire_names() {
    assert_eq!(EventKind::SignalPeak.kind(), "signal_peak");
    assert_eq!(EventKind::SweepData.kind(), "sweep_data");
    assert_eq!(TelemetryKind::IgorAssessment.kind(), "igor_assessment");
    assert_eq!(TelemetryKind::Health.kind(), "health");
}

#[test]
fn canonical_events_project_to_legacy_kinds_and_back() {
    assert_eq!(EventKind::SweepData.telemetry_kind(), TelemetryKind::Sweep);
    assert_eq!(EventKind::OccupancyUpdate.telemetry_kind(), TelemetryKind::Occupancy);
    assert_eq!(EventKind::IgorAnalysis.telemetry_kind(), TelemetryKind::IgorAssessment);
    for kind in [
        EventKind::SweepData,
        EventKind::SignalPeak,
        EventKind::OccupancyUpdate,
        EventKind::AlertEvent,
        EventKind::IgorAnalysis,
    ] {
        assert_eq!(kind.telemetry_kind().migrated_kind(), Some(kind));
    }
}

#[test]
fn migration_keeps_observations_and_skips_service_state() {
    assert_eq!(TelemetryKind::Sweep.migrated_kind(), Some(EventKind::SweepData));
    assert_eq!(TelemetryKind::Peak.migrated_kind(), Some(EventKind::SignalPeak));
    assert_eq!(TelemetryKind::Alert.migrated_kind(), Some(EventKind::AlertEvent));
    assert_eq!(TelemetryKind::Anomaly.migrated_kind(), Some(EventKind::AlertEvent));
    assert_eq!(TelemetryKind::IgorAssessment.migrated_kind(), Some(EventKind::IgorAnalysis));
    assert_eq!(TelemetryKind::Health.migrated_kind(), None);
    assert_eq!(TelemetryKind::Status.migrated_kind(), None);
    assert!(!TelemetryKind::RecordingStatus.replayable());
    assert!(TelemetryKind::Anomaly.replayable());
    assert_eq!(TelemetryKind::Anomaly.recorded_kind(), None);
    assert_eq!(TelemetryKind::Alert.recorded_kind(), Some(EventKind::AlertEvent));
}

#[test]
fn health_constructors_set_state_and_availability() {
    let h = HealthStatus::starting("hackrf_sweep.exe");
    assert_eq!(h.state, HealthState::Starting);
    assert!(!h.capture_available);
    assert_eq!(h.message, "Waiting for SDR capture to start.");
    assert_eq!(h.sweep_path, "hackrf_sweep.exe");

    let h = HealthStatus::online("hackrf_sweep.exe", "Live capture active.".to_string());
    assert_eq!(h.state, HealthState::Online);
    assert!(h.capture_available);
    assert_eq!(h.last_error, None);

    let h = HealthStatus::degraded("hackrf_sweep.exe", "down".to_string(), Some("down".to_string()));
    assert_eq!(h.state, HealthState::Degraded);
    assert!(!h.capture_available);
    assert_eq!(h.last_error, Some("down".to_string()));
}
