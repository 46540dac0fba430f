use std::collections::VecDeque;

use spectraguard::config::FrequencyRange;
use spectraguard::sdr::sweep_capture::{
    capture_args, push_stderr_line, CaptureExitStatus, CaptureSettings, STDERR_LINE_LIMIT,
};

fn test_settings() -> CaptureSettings {
    CaptureSettings {
        freq_range_mhz: FrequencyRange { start_mhz: 2400, end_mhz: 2500 },
        bin_width_hz: 1_000_000,
        lna_gain_db: 16,
        vga_gain_db: 20,
        amp_enable: false,
        antenna_enable: false,
    }
}

#[test]
fn command_builder_includes_required_args() {
    let args = capture_args(&test_settings());

    assert_eq!(
        args,
        vec![
            "-f".to_string(),
            "2400:2500".to_string(),
            "-w".to_string(),
            "1000000".to_string(),
            "-l".to_string(),
            "16".to_string(),
            "-g".to_string(),
            "20".to_string(),
        ]
    );
}

#[test]
fn command_builder_appends_optional_flags() {
    let mut settings = test_settings();
    settings.amp_enable = true;
    settings.antenna_enable = true;

    let args = capture_args(&settings);

    assert!(args.windows(2).any(|pair| pair == ["-a", "1"]));
    assert!(args.windows(2).any(|pair| pair == ["-p", "1"]));
}

#[test]
fn stderr_retention_is_capped() {
    let mut lines = VecDeque::with_capacity(STDERR_LINE_LIMIT);
    for index in 0..(STDERR_LINE_LIMIT + 5) {
        push_stderr_line(&mut lines, format!("line-{index}"));
    }

    assert_eq!(lines.len(), STDERR_LINE_LIMIT);
    assert_eq!(lines.front().map(String::as_str), Some("line-5"));
    assert_eq!(
        lines.back().map(String::as_str),
        Some(format!("line-{}", STDERR_LINE_LIMIT + 4).as_str())
    );
}

#[test]
fn stderr_summary_joins_lines_or_reports_none() {
    let empty = CaptureExitStatus { success: true, exit_code: Some(0), stderr_lines: Vec::new() };
    assert_eq!(empty.stderr_summary(), None);

    let two = CaptureExitStatus {
        success: false,
        exit_code: Some(1),
        stderr_lines: vec!["first".to_string(), "second".to_string()],
    };
    assert_eq!(two.stderr_summary(), Some("first | second".to_string()));
}
