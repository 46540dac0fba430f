//! Shared telemetry vocabulary: health, modes, severities, event kinds and the
//! versioned recording envelope.
use vstd::prelude::*;
use crate::text::push_str;

verus! {

/// The recording schema version written by this library.
pub const SCHEMA_VERSION: u32 = 1;

#[derive(Clone, Copy, Debug, PartialEq, Eq, Hash, Structural)]
pub enum HealthState {
    Starting,
    Online,
    Degraded,
}

#[derive(Clone, Copy, Debug, PartialEq, Eq, Hash, Structural)]
pub enum CaptureMode {
    Idle,
    Live,
    Playback,
}

#[derive(Clone, Copy, Debug, PartialEq, Eq, Hash, Structural)]
pub enum AlertSeverity {
    Low,
    Medium,
    High,
    Critical,
}

#[derive(Clone, Copy, Debug, PartialEq, Eq, Hash, Structural)]
pub enum AnomalyType {
    BurstActivity,
    PowerSpike,
    AbnormalOccupancy,
    RepeatedPulses,
}

#[derive(Clone, Copy, Debug, PartialEq, Eq, Hash, PartialOrd, Ord, Structural)]
pub enum IgorFindingKind {
    CoordinatedEmitter,
    PersistentEmitter,
    EscalatingBandActivity,
}

/// Health of the capture pipeline as reported to clients.
#[derive(Clone, Debug, PartialEq)]
pub struct HealthStatus {
    pub state: HealthState,
    pub capture_available: bool,
    pub message: String,
    pub sweep_path: String,
    pub last_error: Option<String>,
}

impl HealthStatus {
    /// Health before the capture process has started.
    pub fn starting(sweep_path: &str) -> (h: Self)
        ensures
            h.state == HealthState::Starting,
            !h.capture_available,
            h.message@ == "Waiting for SDR capture to start."@,
            h.sweep_path@ == sweep_path@,
            h.last_error.is_none(),
    {
        let mut path = String::new();
        push_str(&mut path, sweep_path);
        HealthStatus {
            state: HealthState::Starting,
            capture_available: false,
            message: String::from_str("Waiting for SDR capture to start."),
            sweep_path: path,
            last_error: None,
        }
    }

    /// Health while live capture is running.
    pub fn online(sweep_path: &str, message: String) -> (h: Self)
        ensures
            h.state == HealthState::Online,
            h.capture_available,
            h.message@ == message@,
            h.sweep_path@ == sweep_path@,
            h.last_error.is_none(),
    {
        let mut path = String::new();
        push_str(&mut path, sweep_path);
        HealthStatus {
            state: HealthState::Online,
            capture_available: true,
            message,
            sweep_path: path,
            last_error: None,
        }
    }

    /// Health after capture stopped or was paused.
    pub fn degraded(sweep_path: &str, message: String, last_error: Option<String>) -> (h: Self)
        ensures
            h.state == HealthState::Degraded,
            !h.capture_available,
            h.message@ == message@,
            h.sweep_path@ == sweep_path@,
            h.last_error == last_error,
    {
        let mut path = String::new();
        push_str(&mut path, sweep_path);
        HealthStatus {
            state: HealthState::Degraded,
            capture_available: false,
            message,
            sweep_path: path,
            last_error,
        }
    }
}

/// State of the current (or last) recording session.
#[derive(Clone, Debug, PartialEq)]
pub struct RecordingStatus {
    pub active: bool,
    pub session_id: Option<String>,
    pub file_path: Option<String>,
    pub started_at_ms: Option<u64>,
    pub event_count: u64,
}

impl Default for RecordingStatus {
    fn default() -> (s: Self)
        ensures
            !s.active,
            s.session_id.is_none(),
            s.file_path.is_none(),
            s.started_at_ms.is_none(),
            s.event_count == 0,
    {
        RecordingStatus {
            active: false,
            session_id: None,
            file_path: None,
            started_at_ms: None,
            event_count: 0,
        }
    }
}

/// What is known about one recording file.
#[derive(Clone, Debug, PartialEq)]
pub struct RecordingFileSummary {
    pub session_id: String,
    pub file_path: String,
    pub size_bytes: u64,
    pub modified_at_ms: u64,
    pub started_at_ms: Option<u64>,
    pub ended_at_ms: Option<u64>,
    pub event_count: Option<u64>,
    pub alert_count: Option<u64>,
    pub anomaly_count: Option<u64>,
    pub igor_count: Option<u64>,
}

/// The variants of a canonical event.
#[derive(Clone, Copy, Debug, PartialEq, Eq, Hash, Structural)]
pub enum EventKind {
    SweepData,
    SignalPeak,
    OccupancyUpdate,
    AlertEvent,
    IgorAnalysis,
}

/// The variants of a legacy telemetry event.
#[derive(Clone, Copy, Debug, PartialEq, Eq, Hash, Structural)]
pub enum TelemetryKind {
    Health,
    Status,
    Sweep,
    Peak,
    Occupancy,
    Anomaly,
    Alert,
    IgorAssessment,
    RecordingStatus,
    PlaybackStatus,
}

pub open spec fn event_kind_name(k: EventKind) -> Seq<char> {
    match k {
        EventKind::SweepData => "sweep_data"@,
        EventKind::SignalPeak => "signal_peak"@,
        EventKind::OccupancyUpdate => "occupancy_update"@,
        EventKind::AlertEvent => "alert_event"@,
        EventKind::IgorAnalysis => "igor_analysis"@,
    }
}

pub open spec fn telemetry_kind_name(k: TelemetryKind) -> Seq<char> {
    match k {
        TelemetryKind::Health => "health"@,
        TelemetryKind::Status => "status"@,
        TelemetryKind::Sweep => "sweep"@,
        TelemetryKind::Peak => "peak"@,
        TelemetryKind::Occupancy => "occupancy"@,
        TelemetryKind::Anomaly => "anomaly"@,
        TelemetryKind::Alert => "alert"@,
        TelemetryKind::IgorAssessment => "igor_assessment"@,
        TelemetryKind::RecordingStatus => "recording_status"@,
        TelemetryKind::PlaybackStatus => "playback_status"@,
    }
}

/// Telemetry kinds that carry replayable observations (not service state).
pub open spec fn is_replayable(k: TelemetryKind) -> bool {
    match k {
        TelemetryKind::Sweep | TelemetryKind::Peak | TelemetryKind::Occupancy
        | TelemetryKind::Anomaly | TelemetryKind::Alert | TelemetryKind::IgorAssessment => true,
        _ => false,
    }
}

/// The legacy telemetry variant a canonical event is projected to.
pub open spec fn projected_kind(k: EventKind) -> TelemetryKind {
    match k {
        EventKind::SweepData => TelemetryKind::Sweep,
        EventKind::SignalPeak => TelemetryKind::Peak,
        EventKind::OccupancyUpdate => TelemetryKind::Occupancy,
        EventKind::AlertEvent => TelemetryKind::Alert,
        EventKind::IgorAnalysis => TelemetryKind::IgorAssessment,
    }
}

/// The canonical variant a legacy recording entry migrates to, if any
/// (anomalies become alerts; service-state entries are skipped).
pub open spec fn migrated_kind(k: TelemetryKind) -> Option<EventKind> {
    match k {
        TelemetryKind::Sweep => Some(EventKind::SweepData),
        TelemetryKind::Peak => Some(EventKind::SignalPeak),
        TelemetryKind::Occupancy => Some(EventKind::OccupancyUpdate),
        TelemetryKind::Alert => Some(EventKind::AlertEvent),
        TelemetryKind::Anomaly => Some(EventKind::AlertEvent),
        TelemetryKind::IgorAssessment => Some(EventKind::IgorAnalysis),
        _ => None,
    }
}

/// The canonical variant a live telemetry event is recorded as, if any
/// (live anomalies are not recorded: their alerts are).
pub open spec fn recorded_kind(k: TelemetryKind) -> Option<EventKind> {
    match k {
        TelemetryKind::Anomaly => None,
        _ => migrated_kind(k),
    }
}

impl EventKind {
    /// The wire name of the variant.
    pub fn kind(&self) -> (s: &'static str)
        ensures
            s@ == event_kind_name(*self),
    {
        match self {
            EventKind::SweepData => "sweep_data",
            EventKind::SignalPeak => "signal_peak",
            EventKind::OccupancyUpdate => "occupancy_update",
            EventKind::AlertEvent => "alert_event",
            EventKind::IgorAnalysis => "igor_analysis",
        }
    }

    /// The legacy telemetry variant this canonical variant is projected to.
    pub fn telemetry_kind(&self) -> (t: TelemetryKind)
        ensures
            t == projected_kind(*self),
    {
        match self {
            EventKind::SweepData => TelemetryKind::Sweep,
            EventKind::SignalPeak => TelemetryKind::Peak,
            EventKind::OccupancyUpdate => TelemetryKind::Occupancy,
            EventKind::AlertEvent => TelemetryKind::Alert,
            EventKind::IgorAnalysis => TelemetryKind::IgorAssessment,
        }
    }
}

impl TelemetryKind {
    /// The wire name of the variant.
    pub fn kind(&self) -> (s: &'static str)
        ensures
            s@ == telemetry_kind_name(*self),
    {
        match self {
            TelemetryKind::Health => "health",
            TelemetryKind::Status => "status",
            TelemetryKind::Sweep => "sweep",
            TelemetryKind::Peak => "peak",
            TelemetryKind::Occupancy => "occupancy",
            TelemetryKind::Anomaly => "anomaly",
            TelemetryKind::Alert => "alert",
            TelemetryKind::IgorAssessment => "igor_assessment",
            TelemetryKind::RecordingStatus => "recording_status",
            TelemetryKind::PlaybackStatus => "playback_status",
        }
    }

    /// Whether an event of this variant is an observation that can be replayed.
    pub fn replayable(&self) -> (b: bool)
        ensures
            b == is_replayable(*self),
    {
        match self {
            TelemetryKind::Sweep | TelemetryKind::Peak | TelemetryKind::Occupancy
            | TelemetryKind::Anomaly | TelemetryKind::Alert | TelemetryKind::IgorAssessment => true,
            _ => false,
        }
    }

    /// The canonical variant a legacy recording entry of this variant migrates to.
    pub fn migrated_kind(&self) -> (r: Option<EventKind>)
        ensures
            r == migrated_kind(*self),
    {
        match self {
            TelemetryKind::Sweep => Some(EventKind::SweepData),
            TelemetryKind::Peak => Some(EventKind::SignalPeak),
            TelemetryKind::Occupancy => Some(EventKind::OccupancyUpdate),
            TelemetryKind::Alert => Some(EventKind::AlertEvent),
            TelemetryKind::Anomaly => Some(EventKind::AlertEvent),
            TelemetryKind::IgorAssessment => Some(EventKind::IgorAnalysis),
            _ => None,
        }
    }

    /// The canonical variant a live event of this variant is recorded as.
    pub fn recorded_kind(&self) -> (r: Option<EventKind>)
        ensures
            r == recorded_kind(*self),
    {
        match self {
            TelemetryKind::Anomaly => None,
            _ => self.migrated_kind(),
        }
    }
}

/// Migration keeps exactly the replayable entries.
pub proof fn lemma_migration_keeps_replayable(k: TelemetryKind)
    ensures
        migrated_kind(k).is_some() <==> is_replayable(k),
{
}

/// Projecting a canonical event to legacy telemetry and migrating it back
/// yields the same variant.
pub proof fn lemma_projection_migrates_back(k: EventKind)
    ensures
        is_replayable(projected_kind(k)),
        migrated_kind(projected_kind(k)) == Some(k),
{
}

/// Everything a recorder writes is replayable, and is written under the variant
/// migration would give it.
pub proof fn lemma_recorded_is_migrated(k: TelemetryKind)
    ensures
        recorded_kind(k).is_some() ==> is_replayable(k) && recorded_kind(k) == migrated_kind(k),
{
}

/// A recording entry in the versioned envelope.
#[derive(Clone, Debug, PartialEq)]
pub struct RecordedEvent<E> {
    pub schema_version: u32,
    pub timestamp_ms: u64,
    pub event: E,
}

impl<E> RecordedEvent<E> {
    /// Wraps an event stamped at `timestamp_ms` in the current schema version.
    pub fn new(event: E, timestamp_ms: u64) -> (r: Self)
        ensures
            r.schema_version == SCHEMA_VERSION,
            r.timestamp_ms == timestamp_ms,
            r.event == event,
    {
        RecordedEvent { schema_version: SCHEMA_VERSION, timestamp_ms, event }
    }

    /// The schema version the entry was written with.
    pub fn schema_version(&self) -> (v: u32)
        ensures
            v == self.schema_version,
    {
        self.schema_version
    }
}

/// The schema version an entry has after normalization: older versions are
/// upgraded to the current one, current and future versions are kept.
pub open spec fn normalized_version(v: u32) -> u32 {
    if v < SCHEMA_VERSION { SCHEMA_VERSION } else { v }
}

/// Brings an entry up to the current schema version (entries from a newer
/// schema are kept as they are).
pub fn normalize_recorded_event<E>(event: RecordedEvent<E>) -> (r: Option<RecordedEvent<E>>)
    ensures
        r matches Some(n) && n.schema_version == normalized_version(event.schema_version)
            && n.timestamp_ms == event.timestamp_ms && n.event == event.event,
{
    if event.schema_version < SCHEMA_VERSION {
        Some(RecordedEvent {
            schema_version: SCHEMA_VERSION,
            timestamp_ms: event.timestamp_ms,
            event: event.event,
        })
    } else {
        Some(event)
    }
}

/// Normalizing twice changes nothing more than normalizing once, and never
/// lowers the version.
pub proof fn lemma_normalize_idempotent(v: u32)
    ensures
        normalized_version(normalized_version(v)) == normalized_version(v),
        normalized_version(v) >= v,
        normalized_version(v) >= SCHEMA_VERSION,
{
}

} // verus!
