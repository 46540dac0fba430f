use spectraguard::sdr::parser::{check_sweep_fields, split_sweep_fields, FloatVerdict, SweepHeader, SweepLineError};

struct ParsedSweep {
    header: SweepHeader,
    bin_width_hz: f64,
    power_values: Vec<f32>,
}

/// Reads a row the way the capture pipeline does: the library splits and
/// checks it, the floating-point fields are read with the standard parser.
fn parse_line(line: &str, sequence: u64, captured_at_ms: u64) -> Result<ParsedSweep, SweepLineError> {
    let fields = split_sweep_fields(line);
    let bin_width = if fields.len() > 4 { fields[4].parse::<f64>().ok() } else { None };
    let verdict = match bin_width {
        None => FloatVerdict::Invalid,
        Some(w) if w.is_finite() && w > 0.0 => FloatVerdict::PositiveFinite,
        Some(_) => FloatVerdict::NotPositiveFinite,
    };
    let power_valid = fields
        .iter()
        .skip(6)
        .map(|field| field.parse::<f32>().is_ok())
        .collect::<Vec<_>>();
    let header = check_sweep_fields(&fields, sequence, captured_at_ms, verdict, &power_valid)?;
    let power_values = header
        .power_fields
        .iter()
        .map(|index| fields[*index].parse::<f32>().expect("checked as a number"))
        .collect();
    Ok(ParsedSweep { header, bin_width_hz: bin_width.unwrap_or(0.0), power_values })
}

#[test]
fn parses_valid_sweep_line() {
    let line = "2019-01-03, 11:57:34.967805, 2400000000, 2405000000, 1000000.00, 20, -64.72, -63.36, -60.91";
    let sweep = parse_line(line, 9, 123).expect("line should parse");

    assert_eq!(sweep.header.sequence, 9);
    assert_eq!(sweep.header.captured_at_ms, 123);
    assert_eq!(sweep.header.timestamp, "2019-01-03 11:57:34.967805");
    assert_eq!(sweep.header.frequency_start_hz, 2_400_000_000);
    assert_eq!(sweep.header.frequency_end_hz, 2_405_000_000);
    assert_eq!(sweep.bin_width_hz, 1_000_000.0);
    assert_eq!(sweep.header.sample_count, 20);
    assert_eq!(sweep.power_values, vec![-64.72, -63.36, -60.91]);
}

#[test]
fn rejects_short_rows() {
    let line = "2019-01-03, 11:57:34.967805, 2405000000, 2410000000, 1000000.00";
    let error = parse_line(line, 1, 1).err().expect("row should be rejected");

    assert!(error.message().contains("expected at least 6"));
}

#[test]
fn rejects_empty_required_fields() {
    let line = "2019-01-03, , 2405000000, 2410000000, 1000000.00, 20, -61.19";
    let error = parse_line(line, 1, 1).err().expect("row should be rejected");

    assert!(error.message().contains("contains an empty required field"));
}

#[test]
fn rejects_invalid_numeric_fields() {
    let line = "2019-01-03, 11:57:34.967805, bad, 2410000000, 1000000.00, 20, -61.19";
    let error = parse_line(line, 1, 1).err().expect("row should be rejected");

    assert!(error.message().contains("invalid start frequency"));
}

#[test]
fn rejects_invalid_sample_count() {
    let line = "2019-01-03, 11:57:34.967805, 2405000000, 2410000000, 1000000.00, bad, -61.19";
    let error = parse_line(line, 1, 1).err().expect("row should be rejected");

    assert!(error.message().contains("invalid sample count"));
}

#[test]
fn rejects_non_monotonic_frequency_ranges() {
    let line = "2019-01-03, 11:57:34.967805, 2410000000, 2410000000, 1000000.00, 20, -61.19";
    let error = parse_line(line, 1, 1).err().expect("row should be rejected");

    assert!(error.message().contains("start frequency must be lower than end frequency"));
}

#[test]
fn rejects_non_positive_or_non_finite_bin_width() {
    let zero_width = "2019-01-03, 11:57:34.967805, 2405000000, 2410000000, 0, 20, -61.19";
    let nan_width = "2019-01-03, 11:57:34.967805, 2405000000, 2410000000, NaN, 20, -61.19";

    let zero_error = parse_line(zero_width, 1, 1).err().expect("row should be rejected");
    let nan_error = parse_line(nan_width, 1, 1).err().expect("row should be rejected");

    assert!(zero_error.message().contains("bin width must be positive and finite"));
    assert!(nan_error.message().contains("bin width must be positive and finite"));
}

#[test]
fn rejects_invalid_power_values() {
    let line = "2019-01-03, 11:57:34.967805, 2405000000, 2410000000, 1000000.00, 20, nope";
    let error = parse_line(line, 1, 1).err().expect("row should be rejected");

    assert!(error.message().contains("invalid power value"));
}

#[test]
fn parses_rows_without_power_values() {
    let line = "2019-01-03, 11:57:34.967805, 2405000000, 2410000000, 1000000.00, 20";
    let sweep = parse_line(line, 1, 1).expect("line should parse");

    assert!(sweep.power_values.is_empty());
}

#[test]
fn split_trims_fields_and_keeps_empty_ones() {
    let fields = split_sweep_fields(" a ,b,, c");
    assert_eq!(fields, vec!["a".to_string(), "b".to_string(), String::new(), "c".to_string()]);
}

#[test]
fn error_messages_name_the_offending_field() {
    let line = "2019-01-03, 11:57:34.967805, 2405000000, x9, 1000000.00, 20";
    let error = parse_line(line, 1, 1).err().expect("row should be rejected");
    assert_eq!(error, SweepLineError::InvalidEndFrequency("x9".to_string()));
    assert_eq!(error.message(), "invalid end frequency: x9");

    let line = "2019-01-03, 11:57:34.967805, 2405000000, 2410000000, wide, 20";
    let error = parse_line(line, 1, 1).err().expect("row should be rejected");
    assert_eq!(error.message(), "invalid bin width: wide");

    let line = "a, b, c";
    let error = parse_line(line, 1, 1).err().expect("row should be rejected");
    assert_eq!(error.message(), "sweep line contained 3 fields, expected at least 6");
}

#[test]
fn blank_power_fields_are_skipped() {
    let line = "2019-01-03, 11:57:34.967805, 2405000000, 2410000000, 1000000.00, 20, -1.5, , -2.5";
    let sweep = parse_line(line, 1, 1).expect("line should parse");
    assert_eq!(sweep.header.power_fields, vec![6, 8]);
    assert_eq!(sweep.power_values, vec![-1.5, -2.5]);
}
