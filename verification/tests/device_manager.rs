use spectraguard::sdr::device_manager::{
    capture_failure_message, live_shutdown_message, simulation_failure_message, sweep_validation_outcome,
    SweepValidationResult,
};
use spectraguard::sdr::sweep_capture::CaptureExitStatus;

fn exit(success: bool, code: Option<i32>, stderr: &[&str]) -> CaptureExitStatus {
    CaptureExitStatus { success, exit_code: code, stderr_lines: stderr.iter().map(|s| s.to_string()).collect() }
}

#[test]
fn capture_failures_are_explained() {
    assert_eq!(
        capture_failure_message("hackrf_sweep.exe", &Ok(exit(true, Some(0), &[]))),
        "Sweep capture ended unexpectedly; restarting."
    );
    assert_eq!(
        capture_failure_message("hackrf_sweep.exe", &Ok(exit(false, Some(1), &["simulated capture exit"]))),
        "Sweep capture exited with code Some(1); restarting. stderr: simulated capture exit"
    );
    assert_eq!(
        capture_failure_message("hackrf_sweep.exe", &Ok(exit(false, None, &[]))),
        "Sweep capture exited with code None; restarting."
    );
    assert_eq!(
        capture_failure_message("hackrf_sweep.exe", &Err("not found".to_string())),
        "Unable to launch hackrf_sweep.exe: not found"
    );
    assert_eq!(
        capture_failure_message("x", &Ok(exit(false, Some(-5), &[]))),
        "Sweep capture exited with code Some(-5); restarting."
    );
}

#[test]
fn validation_passes_with_one_parsed_row() {
    assert_eq!(
        sweep_validation_outcome(3, 1, 2, &exit(true, Some(0), &[])),
        Ok(SweepValidationResult { total_lines: 3, parsed_lines: 1, malformed_lines: 2 })
    );
}

#[test]
fn validation_reports_zero_telemetry_with_exit_diagnostics() {
    let error = sweep_validation_outcome(0, 0, 0, &exit(false, Some(1), &["hackrf_open() failed: HackRF not found (-5)"]))
        .err()
        .expect("empty capture should fail validation");
    assert!(error.contains("produced no telemetry lines"));
    assert!(error.contains("Exit code: Some(1)"));
    assert!(error.contains("HackRF not found"));

    let error = sweep_validation_outcome(4, 0, 4, &exit(true, Some(0), &[])).err().expect("should fail");
    assert_eq!(
        error,
        "Sweep capture produced 4 telemetry lines but none parsed successfully (4 malformed)."
    );
}

#[test]
fn live_shutdown_messages_include_stderr() {
    assert_eq!(
        live_shutdown_message(None, &exit(true, Some(0), &[])),
        "Sweep capture ended unexpectedly; restarting."
    );
    assert_eq!(
        live_shutdown_message(Some("broken pipe"), &exit(true, Some(0), &["late"])),
        "Sweep capture stream failed: broken pipe stderr: late"
    );
    assert_eq!(
        live_shutdown_message(None, &exit(false, Some(2), &["a", "b"])),
        "Sweep capture exited with code Some(2); restarting. stderr: a | b"
    );
}

#[test]
fn simulation_failures_summarise_the_run() {
    assert_eq!(
        simulation_failure_message(7, 3, 2, 1, &exit(true, Some(0), &[])),
        "simulated attack did not trigger any IGOR assessments after 7 sweeps, 3 peaks, 2 anomalies, and 1 alerts. Simulator exit: success=true code=Some(0). stderr: no stderr output"
    );
    assert_eq!(
        simulation_failure_message(0, 0, 0, 0, &exit(false, None, &["boom"])),
        "simulated attack did not trigger any IGOR assessments after 0 sweeps, 0 peaks, 0 anomalies, and 0 alerts. Simulator exit: success=false code=None. stderr: boom"
    );
}

#[test]
fn tally_counts_parsed_and_malformed_lines() {
    let mut tally = SweepValidationResult::new();
    tally.count_line(true);
    tally.count_line(false);
    tally.count_line(true);
    tally.count_line(true);
    assert_eq!(tally, SweepValidationResult { total_lines: 4, parsed_lines: 3, malformed_lines: 1 });
}
