//! Capture configuration: the frequency range notation, toggles, gain steps
//! and the consistency rules between the numeric settings.
use vstd::prelude::*;
use crate::text::{
    chars_of, decimal, parse_u64_chars, parse_u64_spec, push_char, push_decimal, split_bounds, split_on,
    trim, trim_bounds, u64_to_decimal, lemma_decimal_digits, lemma_digits_avoid, lemma_split_two,
    lemma_trim_digits, lemma_parse_decimal, push_str, string_from_chars,
};

verus! {

/// A frequency range in whole MHz, written `start:end`.
#[derive(Clone, Copy, Debug, PartialEq, Eq, Structural)]
pub struct FrequencyRange {
    pub start_mhz: u64,
    pub end_mhz: u64,
}

/// Why a `start:end` frequency range was refused.
#[derive(Clone, Copy, Debug, PartialEq, Eq, Structural)]
pub enum FrequencyRangeError {
    InvalidStart,
    MissingEnd,
    InvalidEnd,
    TooManyParts,
    StartNotBelowEnd,
}

/// The outcome of reading `s` as a frequency range: the text is split on `:`,
/// each piece is trimmed and read as a `u64`.
pub open spec fn frequency_range_spec(s: Seq<char>) -> Result<(u64, u64), FrequencyRangeError> {
    let parts = split_on(s, ':');
    match parse_u64_spec(trim(parts[0])) {
        None => Err(FrequencyRangeError::InvalidStart),
        Some(start) => if parts.len() < 2 {
            Err(FrequencyRangeError::MissingEnd)
        } else {
            match parse_u64_spec(trim(parts[1])) {
                None => Err(FrequencyRangeError::InvalidEnd),
                Some(end) => if parts.len() > 2 {
                    Err(FrequencyRangeError::TooManyParts)
                } else if start >= end {
                    Err(FrequencyRangeError::StartNotBelowEnd)
                } else {
                    Ok((start, end))
                },
            }
        },
    }
}

/// The `start:end` rendering of a range.
pub open spec fn frequency_range_text(start: u64, end: u64) -> Seq<char> {
    decimal(start as nat).push(':') + decimal(end as nat)
}

impl FrequencyRangeError {
    /// The human-readable reason.
    pub fn message(&self) -> (m: String)
        ensures
            m@ == frequency_range_error_text(*self),
    {
        match self {
            FrequencyRangeError::InvalidStart => String::from_str("invalid frequency range start"),
            FrequencyRangeError::MissingEnd => String::from_str(
                "frequency range must include an end frequency",
            ),
            FrequencyRangeError::InvalidEnd => String::from_str("invalid frequency range end"),
            FrequencyRangeError::TooManyParts => String::from_str(
                "frequency range must be formatted as min:max in MHz",
            ),
            FrequencyRangeError::StartNotBelowEnd => String::from_str(
                "frequency range start must be lower than end",
            ),
        }
    }
}

pub open spec fn frequency_range_error_text(e: FrequencyRangeError) -> Seq<char> {
    match e {
        FrequencyRangeError::InvalidStart => "invalid frequency range start"@,
        FrequencyRangeError::MissingEnd => "frequency range must include an end frequency"@,
        FrequencyRangeError::InvalidEnd => "invalid frequency range end"@,
        FrequencyRangeError::TooManyParts => "frequency range must be formatted as min:max in MHz"@,
        FrequencyRangeError::StartNotBelowEnd => "frequency range start must be lower than end"@,
    }
}

impl FrequencyRange {
    /// Reads `start:end` (whitespace around either number is ignored).
    pub fn parse(value: &str) -> (r: Result<FrequencyRange, FrequencyRangeError>)
        ensures
            match r {
                Ok(range) => frequency_range_spec(value@) == Ok::<(u64, u64), FrequencyRangeError>(
                    (range.start_mhz, range.end_mhz),
                ),
                Err(e) => frequency_range_spec(value@) == Err::<(u64, u64), FrequencyRangeError>(e),
            },
    {
        let v = chars_of(value);
        let parts = split_bounds(&v, ':');
        assert(parts@[0].0 <= parts@[0].1 <= v.len());
        let (a0, b0) = trim_bounds(&v, parts[0].0, parts[0].1);
        let start = match parse_u64_chars(&v, a0, b0) {
            None => return Err(FrequencyRangeError::InvalidStart),
            Some(x) => x,
        };
        if parts.len() < 2 {
            return Err(FrequencyRangeError::MissingEnd);
        }
        assert(parts@[1].0 <= parts@[1].1 <= v.len());
        let (a1, b1) = trim_bounds(&v, parts[1].0, parts[1].1);
        let end = match parse_u64_chars(&v, a1, b1) {
            None => return Err(FrequencyRangeError::InvalidEnd),
            Some(x) => x,
        };
        if parts.len() > 2 {
            return Err(FrequencyRangeError::TooManyParts);
        }
        if start >= end {
            return Err(FrequencyRangeError::StartNotBelowEnd);
        }
        Ok(FrequencyRange { start_mhz: start, end_mhz: end })
    }

    /// Renders the range as `start:end`.
    pub fn to_string(&self) -> (s: String)
        ensures
            s@ == frequency_range_text(self.start_mhz, self.end_mhz),
    {
        let mut s = u64_to_decimal(self.start_mhz);
        push_char(&mut s, ':');
        push_decimal(&mut s, self.end_mhz);
        s
    }
}

} // verus!

verus! {

/// Rendering a valid range and reading it back gives the same range.
pub proof fn lemma_frequency_range_roundtrip(start: u64, end: u64)
    requires
        start < end,
    ensures
        frequency_range_spec(frequency_range_text(start, end)) == Ok::<(u64, u64), FrequencyRangeError>(
            (start, end),
        ),
{
    let x = decimal(start as nat);
    let y = decimal(end as nat);
    lemma_decimal_digits(start as nat);
    lemma_decimal_digits(end as nat);
    lemma_digits_avoid(x, ':');
    lemma_digits_avoid(y, ':');
    lemma_split_two(x, y, ':');
    lemma_trim_digits(x);
    lemma_trim_digits(y);
    lemma_parse_decimal(start);
    lemma_parse_decimal(end);
}

} // verus!

verus! {

/// A setting that breaks the configuration rules.
#[derive(Clone, Copy, Debug, PartialEq, Eq, Structural)]
pub enum ConfigError {
    LnaGain,
    VgaGain,
    BinWidth,
    RestartBackoff,
    OccupancyWindows,
    SnapshotInterval,
    AlertBufferSize,
    BurstTiming,
    RepeatedPulse,
    SustainedCritical,
    IgorThresholds,
    IgorScoreThreshold,
    IgorBufferSize,
    PlaybackSpeed,
    StatusLogInterval,
}

pub open spec fn config_error_text(e: ConfigError) -> Seq<char> {
    match e {
        ConfigError::LnaGain => "SPECTRAGUARD_LNA_GAIN_DB must be between 0 and 40 in 8 dB steps"@,
        ConfigError::VgaGain => "SPECTRAGUARD_VGA_GAIN_DB must be between 0 and 62 in 2 dB steps"@,
        ConfigError::BinWidth => "SPECTRAGUARD_BIN_WIDTH_HZ must be greater than zero"@,
        ConfigError::RestartBackoff => "SPECTRAGUARD_RESTART_BACKOFF_MS must be greater than zero"@,
        ConfigError::OccupancyWindows => "SPECTRAGUARD_OCCUPANCY_WINDOW_SECONDS must be >= SPECTRAGUARD_OCCUPANCY_RECENT_WINDOW_SECONDS and both must be positive"@,
        ConfigError::SnapshotInterval => "SPECTRAGUARD_OCCUPANCY_SNAPSHOT_INTERVAL_MS must be greater than zero"@,
        ConfigError::AlertBufferSize => "SPECTRAGUARD_ALERT_BUFFER_SIZE must be greater than zero"@,
        ConfigError::BurstTiming => "Burst timing thresholds must be positive"@,
        ConfigError::RepeatedPulse => "Repeated pulse thresholds must be positive"@,
        ConfigError::SustainedCritical => "SPECTRAGUARD_SUSTAINED_CRITICAL_SECONDS must be greater than zero"@,
        ConfigError::IgorThresholds => "IGOR thresholds must be positive"@,
        ConfigError::IgorScoreThreshold => "SPECTRAGUARD_IGOR_SCORE_THRESHOLD must be between 0 and 100"@,
        ConfigError::IgorBufferSize => "SPECTRAGUARD_IGOR_BUFFER_SIZE must be greater than zero"@,
        ConfigError::PlaybackSpeed => "SPECTRAGUARD_DEFAULT_PLAYBACK_SPEED must be greater than zero"@,
        ConfigError::StatusLogInterval => "SPECTRAGUARD_STATUS_LOG_INTERVAL_SECONDS must be greater than zero"@,
    }
}

impl ConfigError {
    /// The human-readable reason.
    pub fn message(&self) -> (m: String)
        ensures
            m@ == config_error_text(*self),
    {
        match self {
            ConfigError::LnaGain => String::from_str("SPECTRAGUARD_LNA_GAIN_DB must be between 0 and 40 in 8 dB steps"),
            ConfigError::VgaGain => String::from_str("SPECTRAGUARD_VGA_GAIN_DB must be between 0 and 62 in 2 dB steps"),
            ConfigError::BinWidth => String::from_str("SPECTRAGUARD_BIN_WIDTH_HZ must be greater than zero"),
            ConfigError::RestartBackoff => String::from_str("SPECTRAGUARD_RESTART_BACKOFF_MS must be greater than zero"),
            ConfigError::OccupancyWindows => String::from_str("SPECTRAGUARD_OCCUPANCY_WINDOW_SECONDS must be >= SPECTRAGUARD_OCCUPANCY_RECENT_WINDOW_SECONDS and both must be positive"),
            ConfigError::SnapshotInterval => String::from_str("SPECTRAGUARD_OCCUPANCY_SNAPSHOT_INTERVAL_MS must be greater than zero"),
            ConfigError::AlertBufferSize => String::from_str("SPECTRAGUARD_ALERT_BUFFER_SIZE must be greater than zero"),
            ConfigError::BurstTiming => String::from_str("Burst timing thresholds must be positive"),
            ConfigError::RepeatedPulse => String::from_str("Repeated pulse thresholds must be positive"),
            ConfigError::SustainedCritical => String::from_str("SPECTRAGUARD_SUSTAINED_CRITICAL_SECONDS must be greater than zero"),
            ConfigError::IgorThresholds => String::from_str("IGOR thresholds must be positive"),
            ConfigError::IgorScoreThreshold => String::from_str("SPECTRAGUARD_IGOR_SCORE_THRESHOLD must be between 0 and 100"),
            ConfigError::IgorBufferSize => String::from_str("SPECTRAGUARD_IGOR_BUFFER_SIZE must be greater than zero"),
            ConfigError::PlaybackSpeed => String::from_str("SPECTRAGUARD_DEFAULT_PLAYBACK_SPEED must be greater than zero"),
            ConfigError::StatusLogInterval => String::from_str("SPECTRAGUARD_STATUS_LOG_INTERVAL_SECONDS must be greater than zero"),
        }
    }
}

/// LNA gain is 0..=40 dB in 8 dB steps.
pub fn validate_lna_gain(value: u32) -> (r: Result<(), ConfigError>)
    ensures
        r is Ok <==> (value <= 40 && value % 8 == 0),
        r is Err ==> r == Err::<(), ConfigError>(ConfigError::LnaGain),
{
    if value > 40 || value % 8 != 0 {
        return Err(ConfigError::LnaGain);
    }
    Ok(())
}

/// VGA gain is 0..=62 dB in 2 dB steps.
pub fn validate_vga_gain(value: u32) -> (r: Result<(), ConfigError>)
    ensures
        r is Ok <==> (value <= 62 && value % 2 == 0),
        r is Err ==> r == Err::<(), ConfigError>(ConfigError::VgaGain),
{
    if value > 62 || value % 2 != 0 {
        return Err(ConfigError::VgaGain);
    }
    Ok(())
}

/// The value of a 0/1 toggle setting, or the reason it was refused.
pub open spec fn toggle_spec(key: Seq<char>, value: Seq<char>) -> Result<bool, Seq<char>> {
    let t = trim(value);
    if t == seq!['0'] {
        Ok(false)
    } else if t == seq!['1'] {
        Ok(true)
    } else {
        Err(key + " must be 0 or 1, found "@ + t)
    }
}

/// Reads a toggle setting named `key`: `0` or `1`, surrounding whitespace ignored.
pub fn read_toggle(key: &str, value: &str) -> (r: Result<bool, String>)
    ensures
        match r {
            Ok(b) => toggle_spec(key@, value@) == Ok::<bool, Seq<char>>(b),
            Err(m) => toggle_spec(key@, value@) == Err::<bool, Seq<char>>(m@),
        },
{
    let v = chars_of(value);
    let (a, b) = trim_bounds(&v, 0, v.len());
    proof {
        assert(v@.subrange(0, v@.len() as int) =~= value@);
    }
    let ghost t = v@.subrange(a as int, b as int);
    if b > a && b - a == 1 && v[a] == '0' {
        assert(t =~= seq!['0']);
        return Ok(false);
    }
    if b > a && b - a == 1 && v[a] == '1' {
        assert(t =~= seq!['1']);
        assert(t[0] != seq!['0'][0]);
        return Ok(true);
    }
    assert(t != seq!['0'] && t != seq!['1']) by {
        if t.len() == 1 {
            assert(t[0] == v@[a as int]);
        }
    }
    let mut m = String::new();
    push_str(&mut m, key);
    push_str(&mut m, " must be 0 or 1, found ");
    let found = string_from_chars(&v, a, b);
    push_str(&mut m, found.as_str());
    Err(m)
}

/// The numeric settings whose consistency is checked after they are read.
#[derive(Clone, Copy, Debug, PartialEq, Eq, Structural)]
pub struct NumericSettings {
    pub lna_gain_db: u32,
    pub vga_gain_db: u32,
    pub bin_width_hz: u64,
    pub restart_backoff_ms: u64,
    pub occupancy_window_seconds: u64,
    pub occupancy_recent_window_seconds: u64,
    pub occupancy_snapshot_interval_ms: u64,
    pub alert_buffer_size: usize,
    pub burst_quiet_period_seconds: u64,
    pub burst_max_duration_seconds: u64,
    pub repeated_pulse_window_seconds: u64,
    pub repeated_pulse_min_count: usize,
    pub sustained_critical_seconds: u64,
    pub igor_correlation_window_seconds: u64,
    pub igor_min_peak_count: usize,
    pub igor_persistence_window_seconds: u64,
    pub igor_score_threshold: u32,
    pub igor_buffer_size: usize,
    pub status_log_interval_seconds: u64,
}

/// The first rule the settings break, in the order the rules are checked;
/// `playback_speed_positive` tells whether the playback speed exceeds zero.
pub open spec fn settings_error(s: NumericSettings, playback_speed_positive: bool) -> Option<ConfigError> {
    if s.lna_gain_db > 40 || s.lna_gain_db % 8 != 0 {
        Some(ConfigError::LnaGain)
    } else if s.vga_gain_db > 62 || s.vga_gain_db % 2 != 0 {
        Some(ConfigError::VgaGain)
    } else if s.bin_width_hz == 0 {
        Some(ConfigError::BinWidth)
    } else if s.restart_backoff_ms == 0 {
        Some(ConfigError::RestartBackoff)
    } else if s.occupancy_recent_window_seconds == 0 || s.occupancy_window_seconds
        < s.occupancy_recent_window_seconds {
        Some(ConfigError::OccupancyWindows)
    } else if s.occupancy_snapshot_interval_ms == 0 {
        Some(ConfigError::SnapshotInterval)
    } else if s.alert_buffer_size == 0 {
        Some(ConfigError::AlertBufferSize)
    } else if s.burst_quiet_period_seconds == 0 || s.burst_max_duration_seconds == 0 {
        Some(ConfigError::BurstTiming)
    } else if s.repeated_pulse_window_seconds == 0 || s.repeated_pulse_min_count == 0 {
        Some(ConfigError::RepeatedPulse)
    } else if s.sustained_critical_seconds == 0 {
        Some(ConfigError::SustainedCritical)
    } else if s.igor_correlation_window_seconds == 0 || s.igor_persistence_window_seconds == 0
        || s.igor_min_peak_count == 0 {
        Some(ConfigError::IgorThresholds)
    } else if s.igor_score_threshold > 100 {
        Some(ConfigError::IgorScoreThreshold)
    } else if s.igor_buffer_size == 0 {
        Some(ConfigError::IgorBufferSize)
    } else if !playback_speed_positive {
        Some(ConfigError::PlaybackSpeed)
    } else if s.status_log_interval_seconds == 0 {
        Some(ConfigError::StatusLogInterval)
    } else {
        None
    }
}

impl NumericSettings {
    /// Checks the settings against the configuration rules, reporting the first broken one.
    pub fn validate(&self, playback_speed_positive: bool) -> (r: Result<(), ConfigError>)
        ensures
            match settings_error(*self, playback_speed_positive) {
                None => r is Ok,
                Some(e) => r == Err::<(), ConfigError>(e),
            },
    {
        validate_lna_gain(self.lna_gain_db)?;
        validate_vga_gain(self.vga_gain_db)?;
        if self.bin_width_hz == 0 {
            return Err(ConfigError::BinWidth);
        }
        if self.restart_backoff_ms == 0 {
            return Err(ConfigError::RestartBackoff);
        }
        if self.occupancy_recent_window_seconds == 0 || self.occupancy_window_seconds
            < self.occupancy_recent_window_seconds {
            return Err(ConfigError::OccupancyWindows);
        }
        if self.occupancy_snapshot_interval_ms == 0 {
            return Err(ConfigError::SnapshotInterval);
        }
        if self.alert_buffer_size == 0 {
            return Err(ConfigError::AlertBufferSize);
        }
        if self.burst_quiet_period_seconds == 0 || self.burst_max_duration_seconds == 0 {
            return Err(ConfigError::BurstTiming);
        }
        if self.repeated_pulse_window_seconds == 0 || self.repeated_pulse_min_count == 0 {
            return Err(ConfigError::RepeatedPulse);
        }
        if self.sustained_critical_seconds == 0 {
            return Err(ConfigError::SustainedCritical);
        }
        if self.igor_correlation_window_seconds == 0 || self.igor_persistence_window_seconds == 0
            || self.igor_min_peak_count == 0 {
            return Err(ConfigError::IgorThresholds);
        }
        if self.igor_score_threshold > 100 {
            return Err(ConfigError::IgorScoreThreshold);
        }
        if self.igor_buffer_size == 0 {
            return Err(ConfigError::IgorBufferSize);
        }
        if !playback_speed_positive {
            return Err(ConfigError::PlaybackSpeed);
        }
        if self.status_log_interval_seconds == 0 {
            return Err(ConfigError::StatusLogInterval);
        }
        Ok(())
    }
}

} // verus!
