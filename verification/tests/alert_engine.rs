use spectraguard::detection::alert_engine::{anomaly_type_name, AlertEngine, AnomalyRecord};
use spectraguard::models::{AlertSeverity, AnomalyType};
use spectraguard::power::power_order_key;

fn anomaly(id: &str, anomaly_type: AnomalyType) -> AnomalyRecord {
    AnomalyRecord {
        id: id.to_string(),
        detected_at_ms: 1_000,
        source_sequence: 1,
        anomaly_type,
        severity: match anomaly_type {
            AnomalyType::BurstActivity | AnomalyType::PowerSpike => AlertSeverity::Medium,
            AnomalyType::AbnormalOccupancy | AnomalyType::RepeatedPulses => AlertSeverity::High,
        },
        frequency_start_hz: 2_400_000_000,
        frequency_end_hz: 2_401_000_000,
        power_key: power_order_key((-20.0f32).to_bits()),
        message: "test anomaly".to_string(),
    }
}

#[test]
fn escalates_coincident_pulse_and_spike_to_critical() {
    let mut engine = AlertEngine::new(30_000);
    let alerts = engine.generate(&[
        anomaly("1", AnomalyType::RepeatedPulses),
        anomaly("2", AnomalyType::PowerSpike),
    ]);

    assert!(alerts
        .iter()
        .any(|alert| alert.alert_type == "coincident_pulse_spike" && alert.severity == AlertSeverity::Critical));
}

#[test]
fn coincident_alert_replaces_the_pulse_and_spike_alerts() {
    let mut engine = AlertEngine::new(30_000);
    let mut strong = anomaly("2", AnomalyType::PowerSpike);
    strong.power_key = power_order_key((-5.0f32).to_bits());
    strong.source_sequence = 7;
    let alerts = engine.generate(&[
        anomaly("1", AnomalyType::RepeatedPulses),
        strong,
        anomaly("3", AnomalyType::BurstActivity),
    ]);

    assert_eq!(alerts.len(), 2);
    assert_eq!(alerts[0].alert_type, "coincident_pulse_spike");
    assert_eq!(
        alerts[0].message,
        "Repeated pulse activity coincided with a power spike between 2400-2401 MHz."
    );
    assert_eq!(alerts[0].power_source, 1);
    assert_eq!(alerts[0].source_sequence, 7);
    assert_eq!(alerts[1].alert_type, "burst_activity");
    assert_eq!(alerts[1].severity, AlertSeverity::Medium);
    assert_eq!(alerts[1].message, "test anomaly");
    assert_eq!(alerts[1].power_source, 2);
    for alert in &alerts {
        assert_eq!(alert.id.len(), 36);
    }
    assert_ne!(alerts[0].id, alerts[1].id);
}

#[test]
fn sustained_condition_escalates_to_critical() {
    let mut engine = AlertEngine::new(30_000);
    let first = engine.generate(&[anomaly("1", AnomalyType::BurstActivity)]);
    assert_eq!(first[0].severity, AlertSeverity::Medium);

    let mut later = anomaly("2", AnomalyType::BurstActivity);
    later.detected_at_ms = 31_000;
    let second = engine.generate(&[later]);
    assert_eq!(second[0].severity, AlertSeverity::Critical);
    assert_eq!(
        second[0].message,
        "test anomaly Condition has persisted for more than 30 seconds."
    );

    let mut other_band = anomaly("3", AnomalyType::BurstActivity);
    other_band.detected_at_ms = 31_000;
    other_band.frequency_start_hz = 2_410_000_000;
    let third = engine.generate(&[other_band]);
    assert_eq!(third[0].severity, AlertSeverity::Medium);
}

#[test]
fn shared_identifiers_are_skipped_everywhere() {
    let mut engine = AlertEngine::new(30_000);
    let mut elsewhere = anomaly("1", AnomalyType::AbnormalOccupancy);
    elsewhere.frequency_start_hz = 2_450_000_000;
    elsewhere.frequency_end_hz = 2_451_000_000;
    let alerts = engine.generate(&[
        anomaly("1", AnomalyType::RepeatedPulses),
        anomaly("2", AnomalyType::PowerSpike),
        elsewhere,
    ]);
    assert_eq!(alerts.len(), 1);
    assert_eq!(alerts[0].alert_type, "coincident_pulse_spike");
}

#[test]
fn anomaly_type_names_are_snake_case() {
    assert_eq!(anomaly_type_name(AnomalyType::BurstActivity), "burst_activity");
    assert_eq!(anomaly_type_name(AnomalyType::PowerSpike), "power_spike");
    assert_eq!(anomaly_type_name(AnomalyType::AbnormalOccupancy), "abnormal_occupancy");
    assert_eq!(anomaly_type_name(AnomalyType::RepeatedPulses), "repeated_pulses");
}
