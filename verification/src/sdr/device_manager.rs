//! Reports produced while supervising the capture process.
use vstd::prelude::*;
use crate::sdr::sweep_capture::{CaptureExitStatus, stderr_summary_spec};
use crate::text::{decimal, push_decimal, push_signed, push_str, signed_decimal};

verus! {

/// Outcome of running the hardware information tool.
#[derive(Clone, Debug, PartialEq)]
pub struct HardwareValidationResult {
    pub success: bool,
    pub stdout: String,
    pub stderr: String,
}

/// Counts gathered while validating sweep capture.
#[derive(Clone, Copy, Debug, PartialEq, Eq, Structural)]
pub struct SweepValidationResult {
    pub total_lines: u64,
    pub parsed_lines: u64,
    pub malformed_lines: u64,
}

/// The counts after one more line: a line that parsed, or a malformed one.
pub open spec fn counted_line(r: SweepValidationResult, parsed: bool) -> SweepValidationResult {
    SweepValidationResult {
        total_lines: (r.total_lines + 1) as u64,
        parsed_lines: if parsed { (r.parsed_lines + 1) as u64 } else { r.parsed_lines },
        malformed_lines: if parsed { r.malformed_lines } else { (r.malformed_lines + 1) as u64 },
    }
}

/// No lines counted.
pub open spec fn no_lines() -> SweepValidationResult {
    SweepValidationResult { total_lines: 0, parsed_lines: 0, malformed_lines: 0 }
}

/// The counts after a series of lines, each given by whether it parsed.
pub open spec fn tally(outcomes: Seq<bool>) -> SweepValidationResult
    decreases outcomes.len(),
{
    if outcomes.len() == 0 {
        no_lines()
    } else {
        counted_line(tally(outcomes.drop_last()), outcomes.last())
    }
}

impl SweepValidationResult {
    /// No lines counted yet.
    pub fn new() -> (r: Self)
        ensures
            r == no_lines(),
    {
        SweepValidationResult { total_lines: 0, parsed_lines: 0, malformed_lines: 0 }
    }

    /// Counts one line, parsed or malformed.
    pub fn count_line(&mut self, parsed: bool)
        requires
            old(self).total_lines < u64::MAX,
            old(self).parsed_lines < u64::MAX,
            old(self).malformed_lines < u64::MAX,
        ensures
            *final(self) == counted_line(*old(self), parsed),
    {
        self.total_lines = self.total_lines + 1;
        if parsed {
            self.parsed_lines = self.parsed_lines + 1;
        } else {
            self.malformed_lines = self.malformed_lines + 1;
        }
    }
}

/// Counting law: every line counted is either parsed or malformed, so after
/// any series of lines the total is their number and equals parsed plus
/// malformed.
pub proof fn lemma_tally_adds_up(outcomes: Seq<bool>)
    requires
        outcomes.len() <= u64::MAX,
    ensures
        tally(outcomes).total_lines == outcomes.len(),
        tally(outcomes).total_lines == tally(outcomes).parsed_lines + tally(outcomes).malformed_lines,
    decreases outcomes.len(),
{
    if outcomes.len() > 0 {
        lemma_tally_adds_up(outcomes.drop_last());
    }
}

/// `Debug` rendering of an optional exit code: `Some(n)` or `None`.
pub open spec fn exit_code_text(code: Option<i32>) -> Seq<char> {
    match code {
        Some(c) => "Some("@ + signed_decimal(c as int) + ")"@,
        None => "None"@,
    }
}

fn push_exit_code(s: &mut String, code: Option<i32>)
    ensures
        final(s)@ == old(s)@ + exit_code_text(code),
{
    match code {
        Some(c) => {
            push_str(s, "Some(");
            push_signed(s, c as i64);
            push_str(s, ")");
        },
        None => push_str(s, "None"),
    }
}

/// The message reported when live capture ends while it should be running.
pub open spec fn capture_failure_text(
    sweep_path: Seq<char>,
    result: Result<(bool, Option<i32>, Option<Seq<char>>), Seq<char>>,
) -> Seq<char> {
    match result {
        Ok((true, _, _)) => "Sweep capture ended unexpectedly; restarting."@,
        Ok((false, code, summary)) => "Sweep capture exited with code "@ + exit_code_text(code)
            + "; restarting."@ + match summary {
            Some(t) => " stderr: "@ + t,
            None => Seq::<char>::empty(),
        },
        Err(e) => "Unable to launch "@ + sweep_path + ": "@ + e,
    }
}

pub open spec fn exit_view(s: CaptureExitStatus) -> (bool, Option<i32>, Option<Seq<char>>) {
    (s.success, s.exit_code, stderr_summary_spec(s.stderr_lines@))
}

/// Explains why live capture ended: an unexpected clean exit, a failing exit
/// (with its code and stderr), or a launch failure.
pub fn capture_failure_message(sweep_path: &str, result: &Result<CaptureExitStatus, String>) -> (m: String)
    ensures
        m@ == capture_failure_text(
            sweep_path@,
            match result {
                Ok(s) => Ok(exit_view(*s)),
                Err(e) => Err(e@),
            },
        ),
{
    match result {
        Ok(status) => {
            if status.success {
                return String::from_str("Sweep capture ended unexpectedly; restarting.");
            }
            let mut m = String::new();
            push_str(&mut m, "Sweep capture exited with code ");
            push_exit_code(&mut m, status.exit_code);
            push_str(&mut m, "; restarting.");
            match status.stderr_summary() {
                Some(summary) => {
                    push_str(&mut m, " stderr: ");
                    push_str(&mut m, summary.as_str());
                },
                None => {
                    assert(m@ + Seq::<char>::empty() =~= m@);
                },
            }
            m
        },
        Err(e) => {
            let mut m = String::new();
            push_str(&mut m, "Unable to launch ");
            push_str(&mut m, sweep_path);
            push_str(&mut m, ": ");
            push_str(&mut m, e.as_str());
            m
        },
    }
}

/// The verdict of a sweep validation run: it passes when at least one line
/// parsed; otherwise the failure names the counts, the exit code of a failing
/// process and its stderr.
pub open spec fn sweep_validation_spec(
    total: u64,
    parsed: u64,
    malformed: u64,
    exit: (bool, Option<i32>, Option<Seq<char>>),
) -> Result<SweepValidationResult, Seq<char>> {
    if parsed == 0 {
        let head = if total == 0 {
            "Sweep capture produced no telemetry lines during validation."@
        } else {
            "Sweep capture produced "@ + decimal(total as nat)
                + " telemetry lines but none parsed successfully ("@ + decimal(malformed as nat)
                + " malformed)."@
        };
        let with_code = if !exit.0 {
            head + " Exit code: "@ + exit_code_text(exit.1) + "."@
        } else {
            head
        };
        Err(
            with_code + match exit.2 {
                Some(t) => " stderr: "@ + t,
                None => Seq::<char>::empty(),
            },
        )
    } else {
        Ok(SweepValidationResult { total_lines: total, parsed_lines: parsed, malformed_lines: malformed })
    }
}

/// Decides the outcome of a sweep validation run from its line counts and the
/// way the capture process ended.
pub fn sweep_validation_outcome(
    total_lines: u64,
    parsed_lines: u64,
    malformed_lines: u64,
    exit_status: &CaptureExitStatus,
) -> (r: Result<SweepValidationResult, String>)
    ensures
        match r {
            Ok(v) => sweep_validation_spec(total_lines, parsed_lines, malformed_lines, exit_view(*exit_status))
                == Ok::<SweepValidationResult, Seq<char>>(v),
            Err(m) => sweep_validation_spec(total_lines, parsed_lines, malformed_lines, exit_view(*exit_status))
                == Err::<SweepValidationResult, Seq<char>>(m@),
        },
{
    if parsed_lines != 0 {
        return Ok(SweepValidationResult { total_lines, parsed_lines, malformed_lines });
    }
    let ghost exit = exit_view(*exit_status);
    let ghost head = if total_lines == 0 {
        "Sweep capture produced no telemetry lines during validation."@
    } else {
        "Sweep capture produced "@ + decimal(total_lines as nat)
            + " telemetry lines but none parsed successfully ("@ + decimal(malformed_lines as nat)
            + " malformed)."@
    };
    let ghost with_code = if !exit.0 {
        head + " Exit code: "@ + exit_code_text(exit.1) + "."@
    } else {
        head
    };
    let mut m = String::new();
    if total_lines == 0 {
        push_str(&mut m, "Sweep capture produced no telemetry lines during validation.");
    } else {
        push_str(&mut m, "Sweep capture produced ");
        push_decimal(&mut m, total_lines);
        push_str(&mut m, " telemetry lines but none parsed successfully (");
        push_decimal(&mut m, malformed_lines);
        push_str(&mut m, " malformed).");
    }
    assert(m@ =~= head);
    if !exit_status.success {
        push_str(&mut m, " Exit code: ");
        push_exit_code(&mut m, exit_status.exit_code);
        push_str(&mut m, ".");
    }
    assert(m@ =~= with_code);
    match exit_status.stderr_summary() {
        Some(summary) => {
            push_str(&mut m, " stderr: ");
            push_str(&mut m, summary.as_str());
            assert(m@ =~= with_code + (" stderr: "@ + summary@));
        },
        None => {
            assert(m@ + Seq::<char>::empty() =~= m@);
        },
    }
    Err(m)
}

/// The message reported when the capture stream of a live session ends: a
/// read failure, an unexpected clean exit, or a failing exit, followed by the
/// process's stderr when it wrote any.
pub open spec fn live_shutdown_text(read_error: Option<Seq<char>>, exit: (bool, Option<i32>, Option<Seq<char>>)) -> Seq<
    char,
> {
    let head = match read_error {
        Some(e) => "Sweep capture stream failed: "@ + e,
        None => if exit.0 {
            "Sweep capture ended unexpectedly; restarting."@
        } else {
            "Sweep capture exited with code "@ + exit_code_text(exit.1) + "; restarting."@
        },
    };
    head + match exit.2 {
        Some(t) => " stderr: "@ + t,
        None => Seq::<char>::empty(),
    }
}

/// Explains why a live capture session ended.
pub fn live_shutdown_message(read_error: Option<&str>, exit_status: &CaptureExitStatus) -> (m: String)
    ensures
        m@ == live_shutdown_text(
            match read_error {
                Some(e) => Some(e@),
                None => None,
            },
            exit_view(*exit_status),
        ),
{
    let mut m = String::new();
    match read_error {
        Some(e) => {
            push_str(&mut m, "Sweep capture stream failed: ");
            push_str(&mut m, e);
        },
        None => {
            if exit_status.success {
                push_str(&mut m, "Sweep capture ended unexpectedly; restarting.");
            } else {
                push_str(&mut m, "Sweep capture exited with code ");
                push_exit_code(&mut m, exit_status.exit_code);
                push_str(&mut m, "; restarting.");
            }
        },
    }
    let ghost head = m@;
    match exit_status.stderr_summary() {
        Some(summary) => {
            push_str(&mut m, " stderr: ");
            push_str(&mut m, summary.as_str());
            assert(m@ =~= head + (" stderr: "@ + summary@));
        },
        None => {
            assert(m@ + Seq::<char>::empty() =~= m@);
        },
    }
    m
}

pub open spec fn bool_text(b: bool) -> Seq<char> {
    if b { "true"@ } else { "false"@ }
}

/// The reason a simulated attack run is refused: it raised no IGOR
/// assessment.
pub open spec fn simulation_failure_text(
    sweeps: nat,
    peaks: nat,
    anomalies: nat,
    alerts: nat,
    exit: (bool, Option<i32>, Option<Seq<char>>),
) -> Seq<char> {
    "simulated attack did not trigger any IGOR assessments after "@ + decimal(sweeps) + " sweeps, "@ + decimal(
        peaks,
    ) + " peaks, "@ + decimal(anomalies) + " anomalies, and "@ + decimal(alerts) + " alerts. Simulator exit: success="@
        + bool_text(exit.0) + " code="@ + exit_code_text(exit.1) + ". stderr: "@ + match exit.2 {
        Some(t) => t,
        None => "no stderr output"@,
    }
}

/// The message of a simulated attack run that raised no IGOR assessment.
pub fn simulation_failure_message(
    sweeps: usize,
    peaks: usize,
    anomalies: usize,
    alerts: usize,
    exit_status: &CaptureExitStatus,
) -> (m: String)
    ensures
        m@ == simulation_failure_text(
            sweeps as nat,
            peaks as nat,
            anomalies as nat,
            alerts as nat,
            exit_view(*exit_status),
        ),
{
    let mut m = String::new();
    push_str(&mut m, "simulated attack did not trigger any IGOR assessments after ");
    push_decimal(&mut m, sweeps as u64);
    push_str(&mut m, " sweeps, ");
    push_decimal(&mut m, peaks as u64);
    push_str(&mut m, " peaks, ");
    push_decimal(&mut m, anomalies as u64);
    push_str(&mut m, " anomalies, and ");
    push_decimal(&mut m, alerts as u64);
    push_str(&mut m, " alerts. Simulator exit: success=");
    if exit_status.success {
        push_str(&mut m, "true");
    } else {
        push_str(&mut m, "false");
    }
    push_str(&mut m, " code=");
    push_exit_code(&mut m, exit_status.exit_code);
    push_str(&mut m, ". stderr: ");
    match exit_status.stderr_summary() {
        Some(summary) => push_str(&mut m, summary.as_str()),
        None => push_str(&mut m, "no stderr output"),
    }
    m
}

} // verus!
