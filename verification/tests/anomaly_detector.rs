use spectraguard::detection::anomaly_detector::{repeated_pulse_message, BurstEnd, BurstTracker};

const BAND: (u64, u64) = (2_400_000_000, 2_401_000_000);

#[test]
fn detects_repeated_pulses_after_multiple_bursts() {
    let mut tracker = BurstTracker::new(10_000, 3_000, 10_000, 3);

    tracker.observe_sweep(1_000, &[BAND]);
    tracker.observe_sweep(2_000, &[]);
    tracker.observe_sweep(3_000, &[BAND]);
    tracker.observe_sweep(4_000, &[]);
    let outcome = tracker.observe_sweep(5_000, &[BAND]);

    assert!(outcome.onsets.iter().any(|onset| onset.is_some()));
    assert_eq!(outcome.onsets, vec![Some(3)]);
    assert_eq!(
        repeated_pulse_message(3, 10_000, BAND.0, BAND.1),
        "Detected 3 burst onsets within 10 seconds at 2400-2401 MHz."
    );
}

#[test]
fn onsets_outside_the_window_are_forgotten() {
    let mut tracker = BurstTracker::new(10_000, 3_000, 10_000, 3);
    tracker.observe_sweep(1_000, &[BAND]);
    tracker.observe_sweep(2_000, &[]);
    tracker.observe_sweep(3_000, &[BAND]);
    tracker.observe_sweep(4_000, &[]);
    let outcome = tracker.observe_sweep(12_000, &[BAND]);
    assert_eq!(outcome.onsets, vec![None]);
}

#[test]
fn a_short_burst_after_quiet_is_reported_when_it_ends() {
    let mut tracker = BurstTracker::new(1_000, 2_000, 10_000, 5);
    tracker.observe_sweep(1_000, &[BAND]);
    let end = tracker.observe_sweep(2_000, &[]);
    assert_eq!(
        end.ended,
        vec![BurstEnd { frequency_start_hz: BAND.0, frequency_end_hz: BAND.1, duration_ms: 1_000, burst: false }]
    );

    tracker.observe_sweep(4_000, &[BAND]);
    let still = tracker.observe_sweep(4_500, &[BAND]);
    assert!(still.ended.is_empty());
    assert_eq!(still.onsets, vec![None]);
    let end = tracker.observe_sweep(5_000, &[]);
    assert_eq!(
        end.ended,
        vec![BurstEnd { frequency_start_hz: BAND.0, frequency_end_hz: BAND.1, duration_ms: 1_000, burst: true }]
    );
}

#[test]
fn a_long_activation_is_not_a_burst() {
    let mut tracker = BurstTracker::new(1_000, 2_000, 10_000, 5);
    tracker.observe_sweep(1_000, &[BAND]);
    tracker.observe_sweep(2_000, &[]);
    tracker.observe_sweep(4_000, &[BAND]);
    tracker.observe_sweep(7_000, &[BAND]);
    let end = tracker.observe_sweep(8_000, &[]);
    assert_eq!(end.ended.len(), 1);
    assert_eq!(end.ended[0].duration_ms, 4_000);
    assert!(!end.ended[0].burst);
}
