//! Decisions of the capture supervisor.
//!
//! The supervisor runs live capture, recording and playback. What it decides
//! on each command, process exit and bus event is kept here as a state with
//! transitions; starting and stopping the processes is left to the caller,
//! which asks for a decision, does the work, and reports back.
use vstd::prelude::*;
use crate::config::{FrequencyRange, frequency_range_text};
use crate::models::{CaptureMode, RecordingStatus, TelemetryKind};
use crate::text::{decimal, push_decimal, push_str};

verus! {

/// Running totals of what passed over the event bus.
#[derive(Clone, Copy, Debug, PartialEq, Eq, Structural)]
pub struct StatusCounts {
    pub sweep_count: u64,
    pub peak_count: u64,
    pub anomaly_count: u64,
    pub alert_count: u64,
    pub igor_count: u64,
    pub reconnect_attempts: u64,
}

/// The totals after publishing one telemetry event: sweeps, peaks,
/// anomalies, alerts and IGOR assessments are counted, service-state events
/// are not.
pub open spec fn counted(c: StatusCounts, kind: TelemetryKind) -> StatusCounts {
    match kind {
        TelemetryKind::Sweep => StatusCounts { sweep_count: (c.sweep_count + 1) as u64, ..c },
        TelemetryKind::Peak => StatusCounts { peak_count: (c.peak_count + 1) as u64, ..c },
        TelemetryKind::Anomaly => StatusCounts { anomaly_count: (c.anomaly_count + 1) as u64, ..c },
        TelemetryKind::Alert => StatusCounts { alert_count: (c.alert_count + 1) as u64, ..c },
        TelemetryKind::IgorAssessment => StatusCounts { igor_count: (c.igor_count + 1) as u64, ..c },
        _ => c,
    }
}

impl StatusCounts {
    /// Counts a published telemetry event by its kind.
    pub fn count_published(&mut self, kind: TelemetryKind)
        requires
            old(self).sweep_count < u64::MAX,
            old(self).peak_count < u64::MAX,
            old(self).anomaly_count < u64::MAX,
            old(self).alert_count < u64::MAX,
            old(self).igor_count < u64::MAX,
        ensures
            *final(self) == counted(*old(self), kind),
    {
        match kind {
            TelemetryKind::Sweep => self.sweep_count = self.sweep_count + 1,
            TelemetryKind::Peak => self.peak_count = self.peak_count + 1,
            TelemetryKind::Anomaly => self.anomaly_count = self.anomaly_count + 1,
            TelemetryKind::Alert => self.alert_count = self.alert_count + 1,
            TelemetryKind::IgorAssessment => self.igor_count = self.igor_count + 1,
            _ => {},
        }
    }
}

/// The kind of an event seen on the bus, with what the supervisor keeps of it.
#[derive(Clone, Copy, Debug, PartialEq, Eq, Structural)]
pub enum BusEventKind {
    SweepData { sequence: u64, captured_at_ms: u64 },
    SignalPeak,
    OccupancyUpdate,
    AlertEvent,
    IgorAnalysis,
}

/// The answer to a request to start recording.
#[derive(Clone, Copy, Debug, PartialEq, Eq, Structural)]
pub enum RecordingStartDecision {
    /// Playback is running: refuse.
    Refuse,
    /// Already recording: report the current status.
    AlreadyRecording,
    /// Start a recording.
    Start,
}

pub open spec fn recording_refusal_text() -> Seq<char> {
    "recording cannot start while playback is active"@
}

impl RecordingStartDecision {
    /// The reason given for a refusal, and nothing for the other answers.
    pub fn refusal_message(&self) -> (m: Option<String>)
        ensures
            match *self {
                RecordingStartDecision::Refuse => m matches Some(t) && t@ == recording_refusal_text(),
                _ => m is None,
            },
    {
        match self {
            RecordingStartDecision::Refuse => Some(String::from_str("recording cannot start while playback is active")),
            _ => None,
        }
    }
}

/// The answer to a request to start playback.
#[derive(Clone, Copy, Debug, PartialEq, Eq, Structural)]
pub enum PlaybackStartDecision {
    /// Already playing: report the current status.
    AlreadyPlaying,
    /// Stop what must stop, then start playback.
    Start { stop_recording: bool, stop_live: bool },
}

/// What the supervisor knows between events.
#[derive(Clone, Debug)]
pub struct ManagerState {
    pub mode: CaptureMode,
    pub live_running: bool,
    pub playback_running: bool,
    pub recording_running: bool,
    pub recording: RecordingStatus,
    pub playback_active: bool,
    pub playback_emitted_events: u64,
    pub counts: StatusCounts,
    pub last_sweep_sequence: Option<u64>,
    pub last_sweep_at_ms: Option<u64>,
}

impl ManagerState {
    /// Playback runs exactly in playback mode, and then neither live capture
    /// nor a recording runs; live capture only runs in live mode.
    pub open spec fn well_formed(&self) -> bool {
        &&& (self.mode == CaptureMode::Playback) == self.playback_running
        &&& self.mode != CaptureMode::Idle
        &&& self.playback_running ==> !self.live_running && !self.recording_running
        &&& self.live_running ==> self.mode == CaptureMode::Live
    }

    /// The state at start-up: live mode, nothing running, nothing counted.
    pub fn new() -> (s: Self)
        ensures
            s.well_formed(),
            s.mode == CaptureMode::Live,
            !s.live_running && !s.playback_running && !s.recording_running,
            !s.recording.active && s.recording.session_id.is_none() && s.recording.file_path.is_none()
                && s.recording.started_at_ms.is_none() && s.recording.event_count == 0,
            !s.playback_active && s.playback_emitted_events == 0,
            s.counts == (StatusCounts {
                sweep_count: 0,
                peak_count: 0,
                anomaly_count: 0,
                alert_count: 0,
                igor_count: 0,
                reconnect_attempts: 0,
            }),
            s.last_sweep_sequence.is_none() && s.last_sweep_at_ms.is_none(),
    {
        ManagerState {
            mode: CaptureMode::Live,
            live_running: false,
            playback_running: false,
            recording_running: false,
            recording: RecordingStatus::default(),
            playback_active: false,
            playback_emitted_events: 0,
            counts: StatusCounts {
                sweep_count: 0,
                peak_count: 0,
                anomaly_count: 0,
                alert_count: 0,
                igor_count: 0,
                reconnect_attempts: 0,
            },
            last_sweep_sequence: None,
            last_sweep_at_ms: None,
        }
    }

    /// Live capture is (re)started when in live mode, not already running, and
    /// the restart back-off (if any) has passed.
    pub fn wants_live_start(&self, restart_due: bool) -> (b: bool)
        ensures
            b == (self.mode == CaptureMode::Live && !self.live_running && restart_due),
    {
        self.mode == CaptureMode::Live && !self.live_running && restart_due
    }

    /// Live capture was started.
    pub fn live_started(&mut self)
        requires
            old(self).well_formed(),
            old(self).mode == CaptureMode::Live,
        ensures
            final(self).well_formed(),
            *final(self) == (ManagerState { live_running: true, ..*old(self) }),
    {
        self.live_running = true;
    }

    /// Live capture was stopped by the supervisor.
    pub fn live_stopped(&mut self)
        requires
            old(self).well_formed(),
        ensures
            final(self).well_formed(),
            *final(self) == (ManagerState { live_running: false, ..*old(self) }),
    {
        self.live_running = false;
    }

    /// The capture process ended on its own. In live mode this counts as a
    /// reconnect attempt and must be reported (the result is `true`); the
    /// caller then restarts capture after the back-off.
    pub fn capture_ended(&mut self) -> (report: bool)
        requires
            old(self).well_formed(),
            old(self).mode == CaptureMode::Live ==> old(self).counts.reconnect_attempts < u64::MAX,
        ensures
            final(self).well_formed(),
            report == (old(self).mode == CaptureMode::Live),
            *final(self) == (ManagerState {
                live_running: false,
                counts: StatusCounts {
                    reconnect_attempts: if report {
                        (old(self).counts.reconnect_attempts + 1) as u64
                    } else {
                        old(self).counts.reconnect_attempts
                    },
                    ..old(self).counts
                },
                ..*old(self)
            }),
    {
        self.live_running = false;
        if self.mode == CaptureMode::Live {
            self.counts.reconnect_attempts = self.counts.reconnect_attempts + 1;
            true
        } else {
            false
        }
    }

    /// Recording is refused while playback runs, reported when already
    /// running, and started otherwise.
    pub fn recording_start_decision(&self) -> (d: RecordingStartDecision)
        ensures
            d == (if self.playback_running || self.mode == CaptureMode::Playback {
                RecordingStartDecision::Refuse
            } else if self.recording_running {
                RecordingStartDecision::AlreadyRecording
            } else {
                RecordingStartDecision::Start
            }),
    {
        if self.playback_running || self.mode == CaptureMode::Playback {
            RecordingStartDecision::Refuse
        } else if self.recording_running {
            RecordingStartDecision::AlreadyRecording
        } else {
            RecordingStartDecision::Start
        }
    }

    /// A recording was started and reports `status`.
    pub fn recording_started(&mut self, status: RecordingStatus)
        requires
            old(self).well_formed(),
            !old(self).playback_running,
        ensures
            final(self).well_formed(),
            *final(self) == (ManagerState { recording_running: true, recording: status, ..*old(self) }),
    {
        self.recording = status;
        self.recording_running = true;
    }

    /// The recording was stopped and reported `status`; it is kept as
    /// inactive.
    pub fn recording_stopped(&mut self, status: RecordingStatus)
        requires
            old(self).well_formed(),
        ensures
            final(self).well_formed(),
            *final(self) == (ManagerState {
                recording_running: false,
                recording: RecordingStatus { active: false, ..status },
                ..*old(self)
            }),
    {
        let mut stopped = status;
        stopped.active = false;
        self.recording = stopped;
        self.recording_running = false;
    }

    /// Playback is reported when already running; otherwise a running
    /// recording and live capture are stopped first.
    pub fn playback_start_decision(&self) -> (d: PlaybackStartDecision)
        ensures
            d == (if self.playback_running {
                PlaybackStartDecision::AlreadyPlaying
            } else {
                PlaybackStartDecision::Start {
                    stop_recording: self.recording_running,
                    stop_live: self.live_running,
                }
            }),
    {
        if self.playback_running {
            PlaybackStartDecision::AlreadyPlaying
        } else {
            PlaybackStartDecision::Start { stop_recording: self.recording_running, stop_live: self.live_running }
        }
    }

    /// Playback was started (after recording and live capture stopped).
    pub fn playback_started(&mut self)
        requires
            old(self).well_formed(),
            !old(self).recording_running,
            !old(self).live_running,
        ensures
            final(self).well_formed(),
            *final(self) == (ManagerState {
                mode: CaptureMode::Playback,
                playback_running: true,
                playback_active: true,
                playback_emitted_events: 0,
                ..*old(self)
            }),
    {
        self.mode = CaptureMode::Playback;
        self.playback_running = true;
        self.playback_active = true;
        self.playback_emitted_events = 0;
    }

    /// Playback ended, was stopped, or failed: back to live mode, where the
    /// caller restarts capture at once.
    pub fn end_playback(&mut self)
        requires
            old(self).well_formed(),
        ensures
            final(self).well_formed(),
            *final(self) == (ManagerState {
                mode: CaptureMode::Live,
                playback_running: false,
                playback_active: false,
                ..*old(self)
            }),
    {
        self.mode = CaptureMode::Live;
        self.playback_running = false;
        self.playback_active = false;
    }

    /// The counters an event would raise are below their maximum.
    pub open spec fn can_observe(&self, e: BusEventKind) -> bool {
        &&& self.recording.active ==> self.recording.event_count < u64::MAX
        &&& match e {
            BusEventKind::SweepData { .. } => self.counts.sweep_count < u64::MAX && (self.mode
                == CaptureMode::Playback && self.playback_active ==> self.playback_emitted_events < u64::MAX),
            BusEventKind::SignalPeak => self.counts.peak_count < u64::MAX,
            BusEventKind::OccupancyUpdate => true,
            BusEventKind::AlertEvent => self.counts.alert_count < u64::MAX,
            BusEventKind::IgorAnalysis => self.counts.igor_count < u64::MAX,
        }
    }

    /// Checks `can_observe`.
    pub fn observable(&self, e: BusEventKind) -> (b: bool)
        ensures
            b == self.can_observe(e),
    {
        (!self.recording.active || self.recording.event_count < u64::MAX) && match e {
            BusEventKind::SweepData { .. } => self.counts.sweep_count < u64::MAX && (!(self.mode
                == CaptureMode::Playback && self.playback_active) || self.playback_emitted_events < u64::MAX),
            BusEventKind::SignalPeak => self.counts.peak_count < u64::MAX,
            BusEventKind::OccupancyUpdate => true,
            BusEventKind::AlertEvent => self.counts.alert_count < u64::MAX,
            BusEventKind::IgorAnalysis => self.counts.igor_count < u64::MAX,
        }
    }

    /// The state after an event passed over the bus: an active recording
    /// counts it, and the totals and last sweep follow its kind.
    pub open spec fn observed(self, e: BusEventKind) -> ManagerState {
        let recording = if self.recording.active {
            RecordingStatus { event_count: (self.recording.event_count + 1) as u64, ..self.recording }
        } else {
            self.recording
        };
        let s = ManagerState { recording, ..self };
        match e {
            BusEventKind::SweepData { sequence, captured_at_ms } => ManagerState {
                counts: StatusCounts { sweep_count: (s.counts.sweep_count + 1) as u64, ..s.counts },
                last_sweep_sequence: Some(sequence),
                last_sweep_at_ms: Some(captured_at_ms),
                playback_emitted_events: if s.mode == CaptureMode::Playback && s.playback_active {
                    (s.playback_emitted_events + 1) as u64
                } else {
                    s.playback_emitted_events
                },
                ..s
            },
            BusEventKind::SignalPeak => ManagerState {
                counts: StatusCounts { peak_count: (s.counts.peak_count + 1) as u64, ..s.counts },
                ..s
            },
            BusEventKind::OccupancyUpdate => s,
            BusEventKind::AlertEvent => ManagerState {
                counts: StatusCounts { alert_count: (s.counts.alert_count + 1) as u64, ..s.counts },
                ..s
            },
            BusEventKind::IgorAnalysis => ManagerState {
                counts: StatusCounts { igor_count: (s.counts.igor_count + 1) as u64, ..s.counts },
                ..s
            },
        }
    }

    /// Counts an event seen on the bus.
    pub fn observe(&mut self, e: BusEventKind)
        requires
            old(self).well_formed(),
            old(self).can_observe(e),
        ensures
            final(self).well_formed(),
            *final(self) == old(self).observed(e),
    {
        if self.recording.active {
            self.recording.event_count = self.recording.event_count + 1;
        }
        match e {
            BusEventKind::SweepData { sequence, captured_at_ms } => {
                self.counts.sweep_count = self.counts.sweep_count + 1;
                self.last_sweep_sequence = Some(sequence);
                self.last_sweep_at_ms = Some(captured_at_ms);
                if self.mode == CaptureMode::Playback && self.playback_active {
                    self.playback_emitted_events = self.playback_emitted_events + 1;
                }
            },
            BusEventKind::SignalPeak => {
                self.counts.peak_count = self.counts.peak_count + 1;
            },
            BusEventKind::OccupancyUpdate => {},
            BusEventKind::AlertEvent => {
                self.counts.alert_count = self.counts.alert_count + 1;
            },
            BusEventKind::IgorAnalysis => {
                self.counts.igor_count = self.counts.igor_count + 1;
            },
        }
    }
}

/// Recording and playback never run together, and live capture never runs
/// during playback.
pub proof fn lemma_exclusive_runtimes(s: ManagerState)
    requires
        s.well_formed(),
    ensures
        !(s.recording_running && s.playback_running),
        !(s.live_running && s.playback_running),
        s.mode == CaptureMode::Playback ==> !s.recording_running,
{
}

pub open spec fn capture_online_text(start_mhz: u64, end_mhz: u64, bin_width_hz: u64) -> Seq<char> {
    "Capturing "@ + frequency_range_text(start_mhz, end_mhz) + " MHz with "@ + decimal(bin_width_hz as nat)
        + " Hz bins."@
}

/// The health message published when live capture starts.
pub fn capture_online_message(range: &FrequencyRange, bin_width_hz: u64) -> (m: String)
    ensures
        m@ == capture_online_text(range.start_mhz, range.end_mhz, bin_width_hz),
{
    let mut m = String::new();
    push_str(&mut m, "Capturing ");
    let r = range.to_string();
    push_str(&mut m, r.as_str());
    push_str(&mut m, " MHz with ");
    push_decimal(&mut m, bin_width_hz);
    push_str(&mut m, " Hz bins.");
    m
}

} // verus!
