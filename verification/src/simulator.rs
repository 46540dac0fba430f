//! Scripted sweep sequences that imitate RF attack patterns, for exercising
//! the detection pipeline without hardware.
use vstd::prelude::*;
use crate::config::{FrequencyRange, FrequencyRangeError, frequency_range_error_text, frequency_range_spec};
use crate::text::{decimal, push_decimal, push_signed, push_str, signed_decimal};

verus! {

/// The attack patterns that can be simulated.
#[derive(Clone, Copy, Debug, PartialEq, Eq, Structural)]
pub enum AttackScenario {
    CoordinatedEmitter,
    PersistentEmitter,
    EscalatingBandActivity,
}

/// One simulated sweep: its time relative to the start of the plan, its band
/// and bins, the power of each bin in whole dB, and the pause after it.
#[derive(Clone, Debug)]
pub struct SimulatorFrame {
    pub offset_ms: u64,
    pub frequency_start_hz: u64,
    pub frequency_end_hz: u64,
    pub bin_width_hz: u64,
    pub sample_count: u64,
    pub power_db: Vec<i32>,
    pub delay_after_ms: u64,
}

/// The sweeps of one scenario, in order.
#[derive(Clone, Debug)]
pub struct SimulatorPlan {
    pub frames: Vec<SimulatorFrame>,
}

/// Why no plan could be built.
#[derive(Clone, Copy, Debug, PartialEq, Eq, Structural)]
pub enum PlanError {
    ZeroBinWidth,
    Range(FrequencyRangeError),
}

pub open spec fn plan_error_text(e: PlanError) -> Seq<char> {
    match e {
        PlanError::ZeroBinWidth => "bin width must be greater than zero"@,
        PlanError::Range(r) => frequency_range_error_text(r),
    }
}

impl PlanError {
    /// The human-readable reason.
    pub fn message(&self) -> (m: String)
        ensures
            m@ == plan_error_text(*self),
    {
        match self {
            PlanError::ZeroBinWidth => String::from_str("bin width must be greater than zero"),
            PlanError::Range(r) => r.message(),
        }
    }
}

/// The steps of a scenario: offset from the start, bin powers, pause after.
pub open spec fn scenario_steps(scenario: AttackScenario) -> Seq<(u64, Seq<i32>, u64)> {
    match scenario {
        AttackScenario::CoordinatedEmitter => seq![
            (0u64, seq![-30i32, -80i32, -80i32], 400u64),
            (400u64, seq![-80i32, -80i32, -80i32], 700u64),
            (1_100u64, seq![-12i32, -80i32, -80i32], 400u64),
            (1_500u64, seq![-80i32, -80i32, -80i32], 700u64),
            (2_200u64, seq![-8i32, -80i32, -80i32], 400u64),
            (2_600u64, seq![-80i32, -80i32, -80i32], 700u64),
            (3_300u64, seq![-6i32, -80i32, -80i32], 0u64),
        ],
        AttackScenario::PersistentEmitter => seq![
            (0u64, seq![-28i32, -80i32, -80i32], 600u64),
            (600u64, seq![-18i32, -18i32, -80i32], 600u64),
            (1_200u64, seq![-16i32, -16i32, -80i32], 600u64),
            (1_800u64, seq![-14i32, -14i32, -80i32], 600u64),
            (2_400u64, seq![-80i32, -80i32, -80i32], 0u64),
        ],
        AttackScenario::EscalatingBandActivity => seq![
            (0u64, seq![-30i32, -80i32, -80i32], 400u64),
            (400u64, seq![-80i32, -80i32, -80i32], 700u64),
            (1_100u64, seq![-10i32, -12i32, -80i32], 400u64),
            (1_500u64, seq![-80i32, -80i32, -80i32], 700u64),
            (2_200u64, seq![-8i32, -8i32, -8i32], 0u64),
        ],
    }
}

/// Every simulated sweep reports this many samples per bin.
pub const SIMULATED_SAMPLE_COUNT: u64 = 20;

/// The frame `f` is step `step` on the band starting at `start_hz` with three
/// bins of `bin_width_hz`.
pub open spec fn frame_matches(f: SimulatorFrame, step: (u64, Seq<i32>, u64), start_hz: u64, bin_width_hz: u64) -> bool {
    &&& f.offset_ms == step.0
    &&& f.power_db@ == step.1
    &&& f.delay_after_ms == step.2
    &&& f.frequency_start_hz == start_hz
    &&& f.frequency_end_hz == start_hz + bin_width_hz * 3
    &&& f.bin_width_hz == bin_width_hz
    &&& f.sample_count == SIMULATED_SAMPLE_COUNT
}

/// The band and bins fit in 64 bits for every range the text may name.
pub open spec fn plan_fits(freq_range_mhz: Seq<char>, bin_width_hz: u64) -> bool {
    frequency_range_spec(freq_range_mhz) matches Ok((start, _)) ==> start * 1_000_000 + bin_width_hz * 3
        <= u64::MAX
}

/// Reads a `start:end` range in MHz (see `frequency_range_spec`).
pub fn parse_frequency_range(value: &str) -> (r: Result<(u64, u64), FrequencyRangeError>)
    ensures
        r == frequency_range_spec(value@),
{
    match FrequencyRange::parse(value) {
        Ok(range) => Ok((range.start_mhz, range.end_mhz)),
        Err(e) => Err(e),
    }
}

fn make_frame(offset_ms: u64, start_hz: u64, end_hz: u64, bin_width_hz: u64, power_db: Vec<i32>, delay_after_ms: u64) -> (f: SimulatorFrame)
    ensures
        f.offset_ms == offset_ms,
        f.frequency_start_hz == start_hz,
        f.frequency_end_hz == end_hz,
        f.bin_width_hz == bin_width_hz,
        f.sample_count == SIMULATED_SAMPLE_COUNT,
        f.power_db@ == power_db@,
        f.delay_after_ms == delay_after_ms,
{
    SimulatorFrame {
        offset_ms,
        frequency_start_hz: start_hz,
        frequency_end_hz: end_hz,
        bin_width_hz,
        sample_count: SIMULATED_SAMPLE_COUNT,
        power_db,
        delay_after_ms,
    }
}

fn powers(a: i32, b: i32, c: i32) -> (v: Vec<i32>)
    ensures
        v@ == seq![a, b, c],
{
    let mut v: Vec<i32> = Vec::new();
    v.push(a);
    v.push(b);
    v.push(c);
    v
}

/// The plan of a scenario on the band that starts at the lower end of
/// `freq_range_mhz` (a `start:end` range in MHz) and spans three bins of
/// `bin_width_hz`. A zero bin width is refused first, then a malformed range.
pub fn build_plan(scenario: AttackScenario, freq_range_mhz: &str, bin_width_hz: u64) -> (r: Result<
    SimulatorPlan,
    PlanError,
>)
    requires
        bin_width_hz != 0 ==> plan_fits(freq_range_mhz@, bin_width_hz),
    ensures
        bin_width_hz == 0 ==> r == Err::<SimulatorPlan, PlanError>(PlanError::ZeroBinWidth),
        bin_width_hz != 0 ==> match frequency_range_spec(freq_range_mhz@) {
            Err(e) => r == Err::<SimulatorPlan, PlanError>(PlanError::Range(e)),
            Ok((start_mhz, _)) => r matches Ok(plan) && plan.frames.len() == scenario_steps(scenario).len()
                && forall|i: int|
                0 <= i < plan.frames.len() ==> frame_matches(
                    #[trigger] plan.frames@[i],
                    scenario_steps(scenario)[i],
                    (start_mhz * 1_000_000) as u64,
                    bin_width_hz,
                ),
        },
{
    if bin_width_hz == 0 {
        return Err(PlanError::ZeroBinWidth);
    }
    let (start_mhz, _end_mhz) = match parse_frequency_range(freq_range_mhz) {
        Ok(range) => range,
        Err(e) => {
            return Err(PlanError::Range(e));
        },
    };
    let s = start_mhz * 1_000_000;
    let e = s + bin_width_hz * 3;
    let w = bin_width_hz;
    let mut frames: Vec<SimulatorFrame> = Vec::new();
    match scenario {
        AttackScenario::CoordinatedEmitter => {
            frames.push(make_frame(0, s, e, w, powers(-30, -80, -80), 400));
            frames.push(make_frame(400, s, e, w, powers(-80, -80, -80), 700));
            frames.push(make_frame(1_100, s, e, w, powers(-12, -80, -80), 400));
            frames.push(make_frame(1_500, s, e, w, powers(-80, -80, -80), 700));
            frames.push(make_frame(2_200, s, e, w, powers(-8, -80, -80), 400));
            frames.push(make_frame(2_600, s, e, w, powers(-80, -80, -80), 700));
            frames.push(make_frame(3_300, s, e, w, powers(-6, -80, -80), 0));
        },
        AttackScenario::PersistentEmitter => {
            frames.push(make_frame(0, s, e, w, powers(-28, -80, -80), 600));
            frames.push(make_frame(600, s, e, w, powers(-18, -18, -80), 600));
            frames.push(make_frame(1_200, s, e, w, powers(-16, -16, -80), 600));
            frames.push(make_frame(1_800, s, e, w, powers(-14, -14, -80), 600));
            frames.push(make_frame(2_400, s, e, w, powers(-80, -80, -80), 0));
        },
        AttackScenario::EscalatingBandActivity => {
            frames.push(make_frame(0, s, e, w, powers(-30, -80, -80), 400));
            frames.push(make_frame(400, s, e, w, powers(-80, -80, -80), 700));
            frames.push(make_frame(1_100, s, e, w, powers(-10, -12, -80), 400));
            frames.push(make_frame(1_500, s, e, w, powers(-80, -80, -80), 700));
            frames.push(make_frame(2_200, s, e, w, powers(-8, -8, -8), 0));
        },
    }
    Ok(SimulatorPlan { frames })
}

/// A whole number printed with two decimals, as `{:.2}` prints it.
pub open spec fn two_decimals(v: int) -> Seq<char> {
    signed_decimal(v) + ".00"@
}

/// The bin powers printed with two decimals, separated by `, `.
pub open spec fn joined_powers(p: Seq<i32>) -> Seq<char>
    decreases p.len(),
{
    if p.len() == 0 {
        Seq::empty()
    } else if p.len() == 1 {
        two_decimals(p[0] as int)
    } else {
        joined_powers(p.drop_last()) + ", "@ + two_decimals(p.last() as int)
    }
}

/// The sweep row of a frame, in the capture tool's format: date, time, band,
/// bin width, sample count, then the bin powers.
pub open spec fn sweep_line_text(date: Seq<char>, time: Seq<char>, f: SimulatorFrame) -> Seq<char> {
    date + ", "@ + time + ", "@ + decimal(f.frequency_start_hz as nat) + ", "@ + decimal(f.frequency_end_hz as nat)
        + ", "@ + two_decimals(f.bin_width_hz as int) + ", "@ + decimal(f.sample_count as nat) + ", "@
        + joined_powers(f.power_db@)
}

impl SimulatorFrame {
    /// The frame as a sweep row stamped with `date` and `time`. Bin width and
    /// powers are whole numbers small enough to be printed exactly.
    pub fn to_sweep_line(&self, date: &str, time: &str) -> (line: String)
        requires
            self.bin_width_hz <= 9_007_199_254_740_992,
            forall|i: int| 0 <= i < self.power_db.len() ==> -16_777_216 <= #[trigger] self.power_db@[i] <= 16_777_216,
        ensures
            line@ == sweep_line_text(date@, time@, *self),
    {
        let mut line = String::new();
        push_str(&mut line, date);
        push_str(&mut line, ", ");
        push_str(&mut line, time);
        push_str(&mut line, ", ");
        push_decimal(&mut line, self.frequency_start_hz);
        push_str(&mut line, ", ");
        push_decimal(&mut line, self.frequency_end_hz);
        push_str(&mut line, ", ");
        push_decimal(&mut line, self.bin_width_hz);
        push_str(&mut line, ".00");
        push_str(&mut line, ", ");
        push_decimal(&mut line, self.sample_count);
        push_str(&mut line, ", ");
        let ghost head = line@;
        let mut i: usize = 0;
        while i < self.power_db.len()
            invariant
                0 <= i <= self.power_db.len(),
                line@ == head + joined_powers(self.power_db@.take(i as int)),
            decreases self.power_db.len() - i,
        {
            if i > 0 {
                push_str(&mut line, ", ");
            }
            push_signed(&mut line, self.power_db[i] as i64);
            push_str(&mut line, ".00");
            proof {
                let t = self.power_db@.take(i + 1);
                assert(t.drop_last() =~= self.power_db@.take(i as int));
                assert(t.last() == self.power_db@[i as int]);
                if i == 0 {
                    assert(self.power_db@.take(0) =~= Seq::<i32>::empty());
                }
            }
            i = i + 1;
        }
        proof {
            assert(self.power_db@.take(i as int) =~= self.power_db@);
            assert(signed_decimal(self.bin_width_hz as int) == decimal(self.bin_width_hz as nat));
        }
        line
    }
}

} // verus!
