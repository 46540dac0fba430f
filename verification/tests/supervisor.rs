use spectraguard::config::FrequencyRange;
use spectraguard::models::{CaptureMode, RecordingStatus, TelemetryKind};
use spectraguard::sdr::supervisor::{
    capture_online_message, BusEventKind, ManagerState, PlaybackStartDecision, RecordingStartDecision,
};

fn recording(session: &str) -> RecordingStatus {
    RecordingStatus {
        active: true,
        session_id: Some(session.to_string()),
        file_path: Some(format!("recordings/{session}.jsonl")),
        started_at_ms: Some(77),
        event_count: 0,
    }
}

#[test]
fn live_capture_starts_and_restarts_after_exit() {
    let mut state = ManagerState::new();
    assert_eq!(state.mode, CaptureMode::Live);
    assert!(state.wants_live_start(true));
    assert!(!state.wants_live_start(false));
    state.live_started();
    assert!(!state.wants_live_start(true));

    assert!(state.capture_ended());
    assert_eq!(state.counts.reconnect_attempts, 1);
    assert!(state.wants_live_start(true));
}

#[test]
fn recording_is_refused_during_playback() {
    let mut state = ManagerState::new();
    state.live_started();
    assert_eq!(state.recording_start_decision(), RecordingStartDecision::Start);
    state.recording_started(recording("rec-1"));
    assert_eq!(state.recording_start_decision(), RecordingStartDecision::AlreadyRecording);

    assert_eq!(
        state.playback_start_decision(),
        PlaybackStartDecision::Start { stop_recording: true, stop_live: true }
    );
    state.recording_stopped(recording("rec-1"));
    assert!(!state.recording.active);
    state.live_stopped();
    state.playback_started();
    assert_eq!(state.mode, CaptureMode::Playback);
    assert_eq!(state.recording_start_decision(), RecordingStartDecision::Refuse);
    assert_eq!(state.playback_start_decision(), PlaybackStartDecision::AlreadyPlaying);
    assert!(!state.wants_live_start(true));

    assert!(!state.capture_ended());
    assert_eq!(state.counts.reconnect_attempts, 0);

    state.end_playback();
    assert_eq!(state.mode, CaptureMode::Live);
    assert!(!state.playback_active);
    assert!(state.wants_live_start(true));
    assert_eq!(state.recording.session_id, Some("rec-1".to_string()));
}

#[test]
fn bus_events_update_counts_and_last_sweep() {
    let mut state = ManagerState::new();
    state.recording_started(recording("rec-2"));
    for event in [
        BusEventKind::SweepData { sequence: 10, captured_at_ms: 100 },
        BusEventKind::SignalPeak,
        BusEventKind::OccupancyUpdate,
        BusEventKind::AlertEvent,
        BusEventKind::IgorAnalysis,
        BusEventKind::SweepData { sequence: 11, captured_at_ms: 200 },
    ] {
        assert!(state.observable(event));
        state.observe(event);
    }
    assert_eq!(state.counts.sweep_count, 2);
    assert_eq!(state.counts.peak_count, 1);
    assert_eq!(state.counts.alert_count, 1);
    assert_eq!(state.counts.igor_count, 1);
    assert_eq!(state.last_sweep_sequence, Some(11));
    assert_eq!(state.last_sweep_at_ms, Some(200));
    assert_eq!(state.recording.event_count, 6);
    assert_eq!(state.playback_emitted_events, 0);
}

#[test]
fn playback_counts_replayed_sweeps() {
    let mut state = ManagerState::new();
    state.playback_started();
    state.observe(BusEventKind::SweepData { sequence: 1, captured_at_ms: 5 });
    state.observe(BusEventKind::SignalPeak);
    assert_eq!(state.playback_emitted_events, 1);
}

#[test]
fn online_message_names_range_and_bins() {
    let range = FrequencyRange { start_mhz: 2400, end_mhz: 2500 };
    assert_eq!(capture_online_message(&range, 1_000_000), "Capturing 2400:2500 MHz with 1000000 Hz bins.");
}

#[test]
fn publish_event_tracks_igor_metrics() {
    let mut state = ManagerState::new();
    state.counts.count_published(TelemetryKind::IgorAssessment);
    state.counts.count_published(TelemetryKind::Anomaly);
    state.counts.count_published(TelemetryKind::Health);
    assert_eq!(state.counts.igor_count, 1);
    assert_eq!(state.counts.anomaly_count, 1);
    assert_eq!(state.counts.sweep_count, 0);
}

#[test]
fn only_a_refusal_carries_a_message() {
    assert_eq!(
        RecordingStartDecision::Refuse.refusal_message(),
        Some("recording cannot start while playback is active".to_string())
    );
    assert_eq!(RecordingStartDecision::Start.refusal_message(), None);
    assert_eq!(RecordingStartDecision::AlreadyRecording.refusal_message(), None);
}
