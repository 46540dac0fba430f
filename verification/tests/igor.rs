use spectraguard::igor::engine::{
    describe_assessment, severity_from_score, severity_weight, AnomalyInput, IgorEngine, PeakInput,
};
use spectraguard::models::{AlertSeverity, AnomalyType, IgorFindingKind};
use spectraguard::power::{power_bits, power_order_key};

fn key(power: f32) -> u32 {
    power_order_key(power.to_bits())
}

fn peak(detected_at_ms: u64) -> PeakInput {
    PeakInput {
        frequency_start_hz: 2_400_000_000,
        frequency_end_hz: 2_401_000_000,
        detected_at_ms,
        power_key: key(-18.0),
    }
}

fn anomaly(anomaly_type: AnomalyType, severity: AlertSeverity, sequence: u64, detected_at_ms: u64) -> AnomalyInput {
    AnomalyInput {
        frequency_start_hz: 2_400_000_000,
        frequency_end_hz: 2_401_000_000,
        detected_at_ms,
        source_sequence: sequence,
        anomaly_type,
        severity,
        power_key: key(-18.0),
    }
}

#[test]
fn emits_coordinated_emitter_assessment_when_multiple_anomaly_types_align() {
    let mut engine = IgorEngine::new(30_000, 15_000, 3, 60);

    let assessments = engine.correlate(
        3,
        15_000,
        &[peak(1_000), peak(8_000), peak(15_000)],
        &[
            anomaly(AnomalyType::RepeatedPulses, AlertSeverity::High, 1, 1_000),
            anomaly(AnomalyType::PowerSpike, AlertSeverity::Medium, 2, 8_000),
            anomaly(AnomalyType::AbnormalOccupancy, AlertSeverity::High, 3, 15_000),
        ],
    );

    assert_eq!(assessments.len(), 1);
    assert_eq!(assessments[0].finding_kind, IgorFindingKind::CoordinatedEmitter);
    assert!(assessments[0].risk_score >= 60);
    assert_eq!(f32::from_bits(power_bits(assessments[0].max_power_key)), -18.0);
    assert_eq!(assessments[0].source_sequence, 3);
    assert_eq!(assessments[0].id.len(), 36);
}

#[test]
fn emits_persistent_emitter_assessment_after_long_lived_activity() {
    let mut engine = IgorEngine::new(60_000, 15_000, 2, 55);
    engine.correlate(1, 1_000, &[peak(1_000)], &[anomaly(AnomalyType::PowerSpike, AlertSeverity::Medium, 1, 1_000)]);

    let assessments = engine.correlate(
        2,
        20_000,
        &[peak(20_000)],
        &[anomaly(AnomalyType::BurstActivity, AlertSeverity::High, 2, 20_000)],
    );

    assert_eq!(assessments.len(), 1);
    assert_eq!(assessments[0].finding_kind, IgorFindingKind::PersistentEmitter);
    assert_eq!(assessments[0].span_ms, 19_000);
}

#[test]
fn repeated_findings_are_suppressed_until_the_score_rises() {
    let mut engine = IgorEngine::new(30_000, 15_000, 3, 60);
    let first = engine.correlate(
        3,
        15_000,
        &[peak(1_000), peak(8_000), peak(15_000)],
        &[
            anomaly(AnomalyType::RepeatedPulses, AlertSeverity::High, 1, 1_000),
            anomaly(AnomalyType::PowerSpike, AlertSeverity::Medium, 2, 8_000),
            anomaly(AnomalyType::AbnormalOccupancy, AlertSeverity::High, 3, 15_000),
        ],
    );
    assert_eq!(first.len(), 1);
    let again = engine.correlate(4, 15_500, &[peak(15_500)], &[]);
    assert!(again.is_empty());
}

#[test]
fn severity_follows_score_bands() {
    assert_eq!(severity_from_score(85), AlertSeverity::Critical);
    assert_eq!(severity_from_score(84), AlertSeverity::High);
    assert_eq!(severity_from_score(65), AlertSeverity::High);
    assert_eq!(severity_from_score(64), AlertSeverity::Medium);
    assert_eq!(severity_from_score(45), AlertSeverity::Medium);
    assert_eq!(severity_from_score(44), AlertSeverity::Low);
    assert!(severity_weight(AlertSeverity::Critical) > severity_weight(AlertSeverity::High));
    assert!(severity_weight(AlertSeverity::High) > severity_weight(AlertSeverity::Medium));
    assert!(severity_weight(AlertSeverity::Medium) > severity_weight(AlertSeverity::Low));
}

#[test]
fn assessment_description_lists_the_evidence() {
    let text = describe_assessment(
        IgorFindingKind::CoordinatedEmitter,
        82,
        "14.0",
        2_400_000_000,
        2_401_000_000,
        6,
        &vec![AnomalyType::RepeatedPulses, AnomalyType::PowerSpike],
    );
    assert_eq!(
        text,
        "IGOR flagged coordinated emitter behavior with risk score 82 across 2400-2401 MHz after 6 evidence events over 14.0 seconds. Correlated anomaly types: repeated_pulses, power_spike."
    );
}

#[test]
fn assessment_ids_are_hyphenated_lower_hex() {
    let mut engine = IgorEngine::new(30_000, 15_000, 3, 60);
    let assessments = engine.correlate(
        3,
        15_000,
        &[peak(1_000), peak(8_000), peak(15_000)],
        &[
            anomaly(AnomalyType::RepeatedPulses, AlertSeverity::High, 1, 1_000),
            anomaly(AnomalyType::PowerSpike, AlertSeverity::Medium, 2, 8_000),
            anomaly(AnomalyType::AbnormalOccupancy, AlertSeverity::High, 3, 15_000),
        ],
    );
    assert_eq!(assessments.len(), 1);
    let id: Vec<char> = assessments[0].id.chars().collect();
    assert_eq!(id.len(), 36);
    for (i, c) in id.iter().enumerate() {
        if i == 8 || i == 13 || i == 18 || i == 23 {
            assert_eq!(*c, '-');
        } else {
            assert!(c.is_ascii_digit() || ('a'..='f').contains(c));
        }
    }
}
