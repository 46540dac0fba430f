//! Reading the comma-separated rows printed by the sweep capture program:
//! `date, time, start_hz, end_hz, bin_width_hz, sample_count, power...`.
//!
//! The library splits the row and decides whether it is well formed; the
//! floating-point bin width and power readings are read by the caller, which
//! reports for each such field whether it holds a number.
use vstd::prelude::*;
use crate::text::{
    chars_of, parse_u64_chars, parse_u64_spec, push_str, split_bounds, split_on, string_from_chars, trim,
    trim_bounds,
};
use crate::sdr::sweep_capture::string_views;

verus! {

/// What reading the bin width field as a floating-point number gave.
#[derive(Clone, Copy, Debug, PartialEq, Eq, Structural)]
pub enum FloatVerdict {
    /// The field is not a number.
    Invalid,
    /// A number, but not finite or not above zero.
    NotPositiveFinite,
    /// A finite number above zero.
    PositiveFinite,
}

/// Why a sweep row was refused.
#[derive(Clone, Debug, PartialEq)]
pub enum SweepLineError {
    TooFewFields(usize),
    EmptyRequiredField,
    InvalidStartFrequency(String),
    InvalidEndFrequency(String),
    InvalidBinWidth(String),
    InvalidSampleCount(String),
    StartNotBelowEnd,
    BadBinWidth,
    InvalidPowerValue(String),
}

/// The mathematical content of a [`SweepLineError`].
pub enum SweepLineFault {
    TooFewFields(nat),
    EmptyRequiredField,
    InvalidStartFrequency(Seq<char>),
    InvalidEndFrequency(Seq<char>),
    InvalidBinWidth(Seq<char>),
    InvalidSampleCount(Seq<char>),
    StartNotBelowEnd,
    BadBinWidth,
    InvalidPowerValue(Seq<char>),
}

impl SweepLineError {
    pub open spec fn fault(&self) -> SweepLineFault {
        match self {
            SweepLineError::TooFewFields(n) => SweepLineFault::TooFewFields(*n as nat),
            SweepLineError::EmptyRequiredField => SweepLineFault::EmptyRequiredField,
            SweepLineError::InvalidStartFrequency(t) => SweepLineFault::InvalidStartFrequency(t@),
            SweepLineError::InvalidEndFrequency(t) => SweepLineFault::InvalidEndFrequency(t@),
            SweepLineError::InvalidBinWidth(t) => SweepLineFault::InvalidBinWidth(t@),
            SweepLineError::InvalidSampleCount(t) => SweepLineFault::InvalidSampleCount(t@),
            SweepLineError::StartNotBelowEnd => SweepLineFault::StartNotBelowEnd,
            SweepLineError::BadBinWidth => SweepLineFault::BadBinWidth,
            SweepLineError::InvalidPowerValue(t) => SweepLineFault::InvalidPowerValue(t@),
        }
    }
}

/// The trimmed comma-separated fields of a row.
pub open spec fn sweep_fields_spec(line: Seq<char>) -> Seq<Seq<char>> {
    split_on(line, ',').map_values(|p: Seq<char>| trim(p))
}

/// Splits a row on commas and trims every field.
pub fn split_sweep_fields(line: &str) -> (fields: Vec<String>)
    ensures
        string_views(fields@) == sweep_fields_spec(line@),
{
    let v = chars_of(line);
    let bounds = split_bounds(&v, ',');
    let mut fields: Vec<String> = Vec::new();
    let mut k: usize = 0;
    while k < bounds.len()
        invariant
            v@ == line@,
            bounds.len() == split_on(v@, ',').len(),
            forall|j: int|
                0 <= j < bounds.len() ==> {
                    &&& (#[trigger] bounds@[j]).0 <= bounds@[j].1 <= v.len()
                    &&& v@.subrange(bounds@[j].0 as int, bounds@[j].1 as int) == split_on(v@, ',')[j]
                },
            0 <= k <= bounds.len(),
            fields.len() == k,
            forall|j: int| 0 <= j < k ==> (#[trigger] fields@[j])@ == trim(split_on(v@, ',')[j]),
        decreases bounds.len() - k,
    {
        let (a, b) = bounds[k];
        let (ta, tb) = trim_bounds(&v, a, b);
        fields.push(string_from_chars(&v, ta, tb));
        k = k + 1;
    }
    assert(string_views(fields@) =~= sweep_fields_spec(line@));
    fields
}

/// Indices `j` in `6..k` of the non-empty fields, in order: the power readings.
pub open spec fn power_indices(f: Seq<Seq<char>>, k: int) -> Seq<int>
    decreases k,
{
    if k <= 6 {
        Seq::<int>::empty()
    } else if f[k - 1].len() > 0 {
        power_indices(f, k - 1).push(k - 1)
    } else {
        power_indices(f, k - 1)
    }
}

/// The first index in `6..k` of a non-empty field whose reading is not a number.
pub open spec fn first_invalid_power(f: Seq<Seq<char>>, valid: Seq<bool>, k: int) -> Option<int>
    decreases k,
{
    if k <= 6 {
        None
    } else {
        match first_invalid_power(f, valid, k - 1) {
            Some(j) => Some(j),
            None => if f[k - 1].len() > 0 && !valid[k - 7] {
                Some(k - 1)
            } else {
                None
            },
        }
    }
}

proof fn lemma_first_invalid_stable(f: Seq<Seq<char>>, valid: Seq<bool>, m: int, m2: int)
    requires
        6 <= m <= m2,
        first_invalid_power(f, valid, m).is_some(),
    ensures
        first_invalid_power(f, valid, m2) == first_invalid_power(f, valid, m),
    decreases m2 - m,
{
    if m2 > m {
        lemma_first_invalid_stable(f, valid, m, m2 - 1);
    }
}

pub open spec fn has_empty_required(f: Seq<Seq<char>>) -> bool {
    exists|i: int| 0 <= i < 6 && #[trigger] f[i].len() == 0
}

/// The verdict on a row's fields: the first rule broken, in the order the
/// fields are read, or the start, end and sample count.
pub open spec fn sweep_check_spec(f: Seq<Seq<char>>, bin_width: FloatVerdict, valid: Seq<bool>) -> Result<
    (u64, u64, u64),
    SweepLineFault,
> {
    if f.len() < 6 {
        Err(SweepLineFault::TooFewFields(f.len()))
    } else if has_empty_required(f) {
        Err(SweepLineFault::EmptyRequiredField)
    } else {
        match parse_u64_spec(f[2]) {
            None => Err(SweepLineFault::InvalidStartFrequency(f[2])),
            Some(start) => match parse_u64_spec(f[3]) {
                None => Err(SweepLineFault::InvalidEndFrequency(f[3])),
                Some(end) => if bin_width == FloatVerdict::Invalid {
                    Err(SweepLineFault::InvalidBinWidth(f[4]))
                } else {
                    match parse_u64_spec(f[5]) {
                        None => Err(SweepLineFault::InvalidSampleCount(f[5])),
                        Some(count) => if start >= end {
                            Err(SweepLineFault::StartNotBelowEnd)
                        } else if bin_width == FloatVerdict::NotPositiveFinite {
                            Err(SweepLineFault::BadBinWidth)
                        } else {
                            match first_invalid_power(f, valid, f.len() as int) {
                                Some(j) => Err(SweepLineFault::InvalidPowerValue(f[j])),
                                None => Ok((start, end, count)),
                            }
                        },
                    }
                },
            },
        }
    }
}

/// The integer part of a well-formed row.
#[derive(Clone, Debug, PartialEq)]
pub struct SweepHeader {
    pub sequence: u64,
    pub captured_at_ms: u64,
    /// `date time`.
    pub timestamp: String,
    pub frequency_start_hz: u64,
    pub frequency_end_hz: u64,
    pub sample_count: u64,
    /// Indices of the fields that hold power readings.
    pub power_fields: Vec<usize>,
}

fn parse_field(s: &String) -> (r: Option<u64>)
    ensures
        r == parse_u64_spec(s@),
{
    crate::text::parse_u64(s.as_str())
}

fn copy_string(s: &String) -> (r: String)
    ensures
        r@ == s@,
{
    let mut r = String::new();
    push_str(&mut r, s.as_str());
    r
}

/// Checks a split row. `bin_width` is what reading field 4 as a float gave;
/// `power_valid[k]` tells whether field `6 + k` reads as a float.
pub fn check_sweep_fields(
    fields: &Vec<String>,
    sequence: u64,
    captured_at_ms: u64,
    bin_width: FloatVerdict,
    power_valid: &Vec<bool>,
) -> (r: Result<SweepHeader, SweepLineError>)
    requires
        fields.len() >= 6 ==> power_valid.len() == fields.len() - 6,
    ensures
        match r {
            Ok(h) => {
                &&& sweep_check_spec(string_views(fields@), bin_width, power_valid@) == Ok::<
                    (u64, u64, u64),
                    SweepLineFault,
                >((h.frequency_start_hz, h.frequency_end_hz, h.sample_count))
                &&& h.sequence == sequence
                &&& h.captured_at_ms == captured_at_ms
                &&& h.timestamp@ == fields@[0]@ + " "@ + fields@[1]@
                &&& h.power_fields@.map_values(|i: usize| i as int) == power_indices(
                    string_views(fields@),
                    fields.len() as int,
                )
            },
            Err(e) => sweep_check_spec(string_views(fields@), bin_width, power_valid@) == Err::<
                (u64, u64, u64),
                SweepLineFault,
            >(e.fault()),
        },
{
    let ghost f = string_views(fields@);
    if fields.len() < 6 {
        return Err(SweepLineError::TooFewFields(fields.len()));
    }
    let mut i: usize = 0;
    while i < 6
        invariant
            0 <= i <= 6 <= fields.len(),
            f == string_views(fields@),
            forall|j: int| 0 <= j < i ==> f[j].len() > 0,
        decreases 6 - i,
    {
        if fields[i].as_str().is_empty() {
            assert(f[i as int].len() == 0);
            return Err(SweepLineError::EmptyRequiredField);
        }
        i = i + 1;
    }
    assert(!has_empty_required(f));
    let start = match parse_field(&fields[2]) {
        None => return Err(SweepLineError::InvalidStartFrequency(copy_string(&fields[2]))),
        Some(x) => x,
    };
    let end = match parse_field(&fields[3]) {
        None => return Err(SweepLineError::InvalidEndFrequency(copy_string(&fields[3]))),
        Some(x) => x,
    };
    if bin_width == FloatVerdict::Invalid {
        return Err(SweepLineError::InvalidBinWidth(copy_string(&fields[4])));
    }
    let count = match parse_field(&fields[5]) {
        None => return Err(SweepLineError::InvalidSampleCount(copy_string(&fields[5]))),
        Some(x) => x,
    };
    if start >= end {
        return Err(SweepLineError::StartNotBelowEnd);
    }
    if bin_width == FloatVerdict::NotPositiveFinite {
        return Err(SweepLineError::BadBinWidth);
    }
    let mut power_fields: Vec<usize> = Vec::new();
    let mut k: usize = 6;
    while k < fields.len()
        invariant
            6 <= k <= fields.len(),
            power_valid.len() == fields.len() - 6,
            f == string_views(fields@),
            first_invalid_power(f, power_valid@, k as int).is_none(),
            !has_empty_required(f),
            parse_u64_spec(f[2]) == Some(start),
            parse_u64_spec(f[3]) == Some(end),
            parse_u64_spec(f[5]) == Some(count),
            start < end,
            bin_width == FloatVerdict::PositiveFinite,
            power_fields@.map_values(|i: usize| i as int) == power_indices(f, k as int),
        decreases fields.len() - k,
    {
        if !fields[k].as_str().is_empty() {
            if !power_valid[k - 6] {
                proof {
                    assert(f[k as int] == fields@[k as int]@);
                    assert(f[k as int].len() > 0);
                    assert(!power_valid@[k - 6]);
                    assert(first_invalid_power(f, power_valid@, k + 1) == Some(k as int));
                    lemma_first_invalid_stable(f, power_valid@, k + 1, fields.len() as int);
                }
                return Err(SweepLineError::InvalidPowerValue(copy_string(&fields[k])));
            }
            power_fields.push(k);
            assert(power_fields@.map_values(|i: usize| i as int) =~= power_indices(f, k as int).push(
                k as int,
            ));
        }
        k = k + 1;
    }
    let mut timestamp = copy_string(&fields[0]);
    push_str(&mut timestamp, " ");
    push_str(&mut timestamp, fields[1].as_str());
    Ok(SweepHeader {
        sequence,
        captured_at_ms,
        timestamp,
        frequency_start_hz: start,
        frequency_end_hz: end,
        sample_count: count,
        power_fields,
    })
}

pub open spec fn sweep_fault_text(f: SweepLineFault) -> Seq<char> {
    match f {
        SweepLineFault::TooFewFields(n) => "sweep line contained "@ + crate::text::decimal(n)
            + " fields, expected at least 6"@,
        SweepLineFault::EmptyRequiredField => "sweep line contains an empty required field"@,
        SweepLineFault::InvalidStartFrequency(t) => "invalid start frequency: "@ + t,
        SweepLineFault::InvalidEndFrequency(t) => "invalid end frequency: "@ + t,
        SweepLineFault::InvalidBinWidth(t) => "invalid bin width: "@ + t,
        SweepLineFault::InvalidSampleCount(t) => "invalid sample count: "@ + t,
        SweepLineFault::StartNotBelowEnd => "start frequency must be lower than end frequency"@,
        SweepLineFault::BadBinWidth => "bin width must be positive and finite"@,
        SweepLineFault::InvalidPowerValue(t) => "invalid power value: "@ + t,
    }
}

impl SweepLineError {
    /// The human-readable reason.
    pub fn message(&self) -> (m: String)
        ensures
            m@ == sweep_fault_text(self.fault()),
    {
        let mut m = String::new();
        match self {
            SweepLineError::TooFewFields(n) => {
                push_str(&mut m, "sweep line contained ");
                crate::text::push_decimal(&mut m, *n as u64);
                push_str(&mut m, " fields, expected at least 6");
            },
            SweepLineError::EmptyRequiredField => push_str(&mut m, "sweep line contains an empty required field"),
            SweepLineError::InvalidStartFrequency(t) => {
                push_str(&mut m, "invalid start frequency: ");
                push_str(&mut m, t.as_str());
            },
            SweepLineError::InvalidEndFrequency(t) => {
                push_str(&mut m, "invalid end frequency: ");
                push_str(&mut m, t.as_str());
            },
            SweepLineError::InvalidBinWidth(t) => {
                push_str(&mut m, "invalid bin width: ");
                push_str(&mut m, t.as_str());
            },
            SweepLineError::InvalidSampleCount(t) => {
                push_str(&mut m, "invalid sample count: ");
                push_str(&mut m, t.as_str());
            },
            SweepLineError::StartNotBelowEnd => push_str(&mut m, "start frequency must be lower than end frequency"),
            SweepLineError::BadBinWidth => push_str(&mut m, "bin width must be positive and finite"),
            SweepLineError::InvalidPowerValue(t) => {
                push_str(&mut m, "invalid power value: ");
                push_str(&mut m, t.as_str());
            },
        }
        m
    }
}

} // verus!
