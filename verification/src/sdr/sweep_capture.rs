//! Decisions around the sweep capture process: its arguments, how much of its
//! diagnostic output is kept, and how its ending is reported.
use vstd::prelude::*;
use std::collections::VecDeque;
use crate::config::{FrequencyRange, frequency_range_text};
use crate::text::{decimal, push_decimal, push_str};

verus! {

/// How many stderr lines of the capture process are kept.
pub const STDERR_LINE_LIMIT: usize = 128;

/// How the capture process ended.
#[derive(Clone, Debug, PartialEq)]
pub struct CaptureExitStatus {
    pub success: bool,
    pub exit_code: Option<i32>,
    pub stderr_lines: Vec<String>,
}

/// One raw stdout line of the capture process.
#[derive(Clone, Debug, PartialEq)]
pub struct RawSweepLine {
    pub line: String,
    pub captured_at_ms: u64,
}

/// What the capture task reports.
#[derive(Clone, Debug, PartialEq)]
pub enum CaptureMessage {
    CaptureStarted { started_at_ms: u64, command_path: String },
    SweepLine(RawSweepLine),
    CaptureStopped(CaptureExitStatus),
    CaptureFailed { failed_at_ms: u64, error: String },
}

/// The texts of `lines` joined by `sep`.
pub open spec fn join(lines: Seq<Seq<char>>, sep: Seq<char>) -> Seq<char>
    decreases lines.len(),
{
    if lines.len() == 0 {
        Seq::<char>::empty()
    } else if lines.len() == 1 {
        lines[0]
    } else {
        join(lines.drop_last(), sep) + sep + lines.last()
    }
}

pub open spec fn string_views(v: Seq<String>) -> Seq<Seq<char>> {
    v.map_values(|s: String| s@)
}

/// The stderr lines joined by ` | `, if there are any.
pub open spec fn stderr_summary_spec(lines: Seq<String>) -> Option<Seq<char>> {
    if lines.len() == 0 {
        None
    } else {
        Some(join(string_views(lines), " | "@))
    }
}

impl CaptureExitStatus {
    /// The retained stderr output on one line, if there was any.
    pub fn stderr_summary(&self) -> (r: Option<String>)
        ensures
            match r {
                Some(s) => stderr_summary_spec(self.stderr_lines@) == Some(s@),
                None => stderr_summary_spec(self.stderr_lines@).is_none(),
            },
    {
        if self.stderr_lines.len() == 0 {
            return None;
        }
        let ghost views = string_views(self.stderr_lines@);
        let mut s = String::new();
        push_str(&mut s, self.stderr_lines[0].as_str());
        proof {
            assert(views.take(1).drop_last() =~= Seq::<Seq<char>>::empty());
            assert(join(views.take(1), " | "@) == views.take(1)[0]);
        }
        let mut i: usize = 1;
        while i < self.stderr_lines.len()
            invariant
                1 <= i <= self.stderr_lines.len(),
                views == string_views(self.stderr_lines@),
                s@ == join(views.take(i as int), " | "@),
            decreases self.stderr_lines.len() - i,
        {
            push_str(&mut s, " | ");
            push_str(&mut s, self.stderr_lines[i].as_str());
            proof {
                assert(views.take(i + 1).drop_last() =~= views.take(i as int));
                assert(views.take(i + 1).last() == self.stderr_lines@[i as int]@);
            }
            i = i + 1;
        }
        proof {
            assert(views.take(i as int) =~= views);
        }
        Some(s)
    }
}

/// The stderr history after one more line: the oldest line leaves once the
/// limit is reached.
pub open spec fn stderr_after_push(lines: Seq<String>, line: String) -> Seq<String> {
    if lines.len() == STDERR_LINE_LIMIT {
        lines.drop_first().push(line)
    } else {
        lines.push(line)
    }
}

/// Keeps one more stderr line, dropping the oldest once the limit is reached.
pub fn push_stderr_line(lines: &mut VecDeque<String>, line: String)
    ensures
        final(lines)@ == stderr_after_push(old(lines)@, line),
{
    if lines.len() == STDERR_LINE_LIMIT {
        let _ = lines.pop_front();
    }
    lines.push_back(line);
    proof {
        if old(lines)@.len() == STDERR_LINE_LIMIT {
            assert(old(lines)@.subrange(1, old(lines)@.len() as int) =~= old(lines)@.drop_first());
        }
    }
}

/// Retention law: starting from no lines, the kept lines are always the last
/// `STDERR_LINE_LIMIT` lines received.
pub proof fn lemma_stderr_keeps_latest(received: Seq<String>, line: String)
    ensures
        stderr_after_push(crate::buffers::retained(received, STDERR_LINE_LIMIT as nat), line)
            == crate::buffers::retained(received.push(line), STDERR_LINE_LIMIT as nat),
{
    let r = crate::buffers::retained(received, STDERR_LINE_LIMIT as nat);
    let h = received.push(line);
    if received.len() >= STDERR_LINE_LIMIT {
        assert(r.drop_first().push(line) =~= h.subrange(
            h.len() - STDERR_LINE_LIMIT,
            h.len() as int,
        ));
    } else {
        assert(r =~= received);
    }
}

/// The settings that shape the capture command line.
#[derive(Clone, Copy, Debug, PartialEq, Eq, Structural)]
pub struct CaptureSettings {
    pub freq_range_mhz: FrequencyRange,
    pub bin_width_hz: u64,
    pub lna_gain_db: u32,
    pub vga_gain_db: u32,
    pub amp_enable: bool,
    pub antenna_enable: bool,
}

/// The capture arguments: range, bin width, gains, then the optional amplifier
/// and antenna-power flags.
pub open spec fn capture_args_spec(c: CaptureSettings) -> Seq<Seq<char>> {
    let base = seq![
        "-f"@,
        frequency_range_text(c.freq_range_mhz.start_mhz, c.freq_range_mhz.end_mhz),
        "-w"@,
        decimal(c.bin_width_hz as nat),
        "-l"@,
        decimal(c.lna_gain_db as nat),
        "-g"@,
        decimal(c.vga_gain_db as nat),
    ];
    let amp = if c.amp_enable { base + seq!["-a"@, "1"@] } else { base };
    if c.antenna_enable { amp + seq!["-p"@, "1"@] } else { amp }
}

fn str_string(s: &str) -> (r: String)
    ensures
        r@ == s@,
{
    let mut r = String::new();
    push_str(&mut r, s);
    r
}

fn decimal_string(n: u64) -> (r: String)
    ensures
        r@ == decimal(n as nat),
{
    let mut r = String::new();
    push_decimal(&mut r, n);
    r
}

/// The arguments passed to the sweep capture program.
pub fn capture_args(settings: &CaptureSettings) -> (args: Vec<String>)
    ensures
        string_views(args@) == capture_args_spec(*settings),
{
    let mut args: Vec<String> = Vec::new();
    args.push(str_string("-f"));
    args.push(settings.freq_range_mhz.to_string());
    args.push(str_string("-w"));
    args.push(decimal_string(settings.bin_width_hz));
    args.push(str_string("-l"));
    args.push(decimal_string(settings.lna_gain_db as u64));
    args.push(str_string("-g"));
    args.push(decimal_string(settings.vga_gain_db as u64));
    let ghost base = string_views(args@);
    assert(base =~= seq![
        "-f"@,
        frequency_range_text(settings.freq_range_mhz.start_mhz, settings.freq_range_mhz.end_mhz),
        "-w"@,
        decimal(settings.bin_width_hz as nat),
        "-l"@,
        decimal(settings.lna_gain_db as nat),
        "-g"@,
        decimal(settings.vga_gain_db as nat),
    ]);
    if settings.amp_enable {
        args.push(str_string("-a"));
        args.push(str_string("1"));
    }
    let ghost amp = string_views(args@);
    assert(amp =~= if settings.amp_enable { base + seq!["-a"@, "1"@] } else { base });
    if settings.antenna_enable {
        args.push(str_string("-p"));
        args.push(str_string("1"));
    }
    assert(string_views(args@) =~= if settings.antenna_enable { amp + seq!["-p"@, "1"@] } else { amp });
    args
}

} // verus!
