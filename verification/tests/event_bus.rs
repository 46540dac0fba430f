use spectraguard::telemetry::event_bus::TelemetryMetrics;

#[test]
fn metrics_track_publishes_and_drops() {
    let mut metrics = TelemetryMetrics::new();
    metrics.record_publish();
    metrics.record_publish();
    metrics.record_drop();
    let snapshot = metrics.snapshot();
    assert_eq!(snapshot.events_published, 2);
    assert_eq!(snapshot.dropped_events, 1);
}

#[test]
fn pressure_is_capped_and_lag_is_stored() {
    let mut metrics = TelemetryMetrics::new();
    metrics.store_pressure(250);
    assert_eq!(metrics.snapshot().queue_pressure, 100);
    metrics.store_pressure(42);
    assert_eq!(metrics.snapshot().queue_pressure, 42);
    metrics.update_lag(9);
    assert_eq!(metrics.snapshot().subscriber_lag, 9);
    assert_eq!(metrics.snapshot().events_published, 0);
}

#[test]
fn counters_tally_a_series_of_updates() {
    let mut metrics = TelemetryMetrics::new();
    metrics.record_drop();
    metrics.record_publish();
    metrics.update_lag(3);
    metrics.record_drop();
    metrics.record_publish();
    metrics.record_drop();
    metrics.update_lag(7);
    let first = metrics.snapshot();
    let second = metrics.snapshot();
    assert_eq!(first, second);
    assert_eq!(first.dropped_events, 3);
    assert_eq!(first.events_published, 2);
    assert_eq!(first.subscriber_lag, 7);
    assert_eq!(first.queue_pressure, 0);
}
