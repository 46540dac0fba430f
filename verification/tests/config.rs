use spectraguard::config::{
    read_toggle, validate_lna_gain, validate_vga_gain, ConfigError, FrequencyRange, FrequencyRangeError,
};

#[test]
fn frequency_range_parses_and_prints_back() {
    let range = FrequencyRange::parse(" 2400 : 2500 ").expect("range should parse");
    assert_eq!(range, FrequencyRange { start_mhz: 2400, end_mhz: 2500 });
    assert_eq!(range.to_string(), "2400:2500");
    assert_eq!(FrequencyRange::parse(&range.to_string()), Ok(range));
}

#[test]
fn frequency_range_refusals_follow_field_order() {
    assert_eq!(FrequencyRange::parse("x:2500"), Err(FrequencyRangeError::InvalidStart));
    assert_eq!(FrequencyRange::parse("2400"), Err(FrequencyRangeError::MissingEnd));
    assert_eq!(FrequencyRange::parse("2400:y"), Err(FrequencyRangeError::InvalidEnd));
    assert_eq!(FrequencyRange::parse("2400:2500:2600"), Err(FrequencyRangeError::TooManyParts));
    assert_eq!(FrequencyRange::parse("2500:2400"), Err(FrequencyRangeError::StartNotBelowEnd));
    assert_eq!(FrequencyRange::parse("2500:2500"), Err(FrequencyRangeError::StartNotBelowEnd));
    assert_eq!(
        FrequencyRangeError::StartNotBelowEnd.message(),
        "frequency range start must be lower than end"
    );
    assert_eq!(FrequencyRangeError::InvalidStart.message(), "invalid frequency range start");
}

#[test]
fn gains_are_checked_against_the_hardware_steps() {
    assert!(validate_lna_gain(16).is_ok());
    assert!(validate_lna_gain(40).is_ok());
    assert!(validate_lna_gain(0).is_ok());
    assert!(validate_lna_gain(17).is_err());
    assert!(validate_lna_gain(48).is_err());
    assert!(validate_lna_gain(8).is_ok());
    assert!(validate_vga_gain(20).is_ok());
    assert!(validate_vga_gain(62).is_ok());
    assert!(validate_vga_gain(63).is_err());
    assert!(validate_vga_gain(64).is_err());
}

#[test]
fn toggles_accept_only_zero_and_one() {
    assert_eq!(read_toggle("SPECTRAGUARD_AMP_ENABLE", "1"), Ok(true));
    assert_eq!(read_toggle("SPECTRAGUARD_AMP_ENABLE", " 0 "), Ok(false));
    assert_eq!(
        read_toggle("SPECTRAGUARD_AMP_ENABLE", " yes "),
        Err("SPECTRAGUARD_AMP_ENABLE must be 0 or 1, found yes".to_string())
    );
}

#[test]
fn config_errors_have_messages() {
    let e = validate_lna_gain(17).err().expect("gain should be refused");
    assert_eq!(e, ConfigError::LnaGain);
    assert_eq!(e.message(), "SPECTRAGUARD_LNA_GAIN_DB must be between 0 and 40 in 8 dB steps");
    let e = validate_vga_gain(3).err().expect("gain should be refused");
    assert_eq!(e.message(), "SPECTRAGUARD_VGA_GAIN_DB must be between 0 and 62 in 2 dB steps");
}

fn default_settings() -> spectraguard::config::NumericSettings {
    spectraguard::config::NumericSettings {
        lna_gain_db: 16,
        vga_gain_db: 20,
        bin_width_hz: 1_000_000,
        restart_backoff_ms: 3000,
        occupancy_window_seconds: 300,
        occupancy_recent_window_seconds: 60,
        occupancy_snapshot_interval_ms: 1000,
        alert_buffer_size: 256,
        burst_quiet_period_seconds: 10,
        burst_max_duration_seconds: 3,
        repeated_pulse_window_seconds: 10,
        repeated_pulse_min_count: 3,
        sustained_critical_seconds: 30,
        igor_correlation_window_seconds: 30,
        igor_min_peak_count: 3,
        igor_persistence_window_seconds: 15,
        igor_score_threshold: 60,
        igor_buffer_size: 128,
        status_log_interval_seconds: 10,
    }
}

#[test]
fn default_settings_pass_and_each_rule_reports_its_error() {
    assert_eq!(default_settings().validate(true), Ok(()));
    assert_eq!(default_settings().validate(false), Err(ConfigError::PlaybackSpeed));

    let mut s = default_settings();
    s.bin_width_hz = 0;
    assert_eq!(s.validate(true), Err(ConfigError::BinWidth));

    let mut s = default_settings();
    s.occupancy_window_seconds = 30;
    assert_eq!(s.validate(true), Err(ConfigError::OccupancyWindows));

    let mut s = default_settings();
    s.igor_score_threshold = 101;
    assert_eq!(s.validate(true), Err(ConfigError::IgorScoreThreshold));

    let mut s = default_settings();
    s.igor_score_threshold = 101;
    s.lna_gain_db = 3;
    assert_eq!(s.validate(true), Err(ConfigError::LnaGain));

    let mut s = default_settings();
    s.status_log_interval_seconds = 0;
    assert_eq!(s.validate(true), Err(ConfigError::StatusLogInterval));
}
