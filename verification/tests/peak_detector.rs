use spectraguard::detection::peak_detector::{peak_span, strong_runs};

struct Peak {
    start_bin_index: usize,
    end_bin_index: usize,
    frequency_start_hz: u64,
    frequency_end_hz: u64,
    frequency: u64,
    bandwidth_hz: u64,
    max_power: f32,
    average_power: f32,
}

/// Clusters the bins of a sweep of 1 MHz bins starting at 2400 MHz, the
/// strength of each bin decided against `threshold_db`.
fn detect(threshold_db: f32, power_values: &[f32]) -> Vec<Peak> {
    let strong = power_values.iter().map(|power| *power >= threshold_db).collect::<Vec<_>>();
    strong_runs(&strong)
        .into_iter()
        .map(|(start, end)| {
            let frequency_start_hz = 2_400_000_000 + 1_000_000 * start as u64;
            let frequency_end_hz = 2_400_000_000 + 1_000_000 * (end as u64 + 1);
            let (frequency, bandwidth_hz) = peak_span(frequency_start_hz, frequency_end_hz);
            let slice = &power_values[start..=end];
            Peak {
                start_bin_index: start,
                end_bin_index: end,
                frequency_start_hz,
                frequency_end_hz,
                frequency,
                bandwidth_hz,
                max_power: slice.iter().copied().fold(f32::MIN, f32::max),
                average_power: slice.iter().sum::<f32>() / slice.len() as f32,
            }
        })
        .collect()
}

#[test]
fn clusters_adjacent_bins_into_single_peak() {
    let peaks = detect(-35.0, &[-60.0, -34.0, -20.0, -50.0]);

    assert_eq!(peaks.len(), 1);
    assert_eq!(peaks[0].start_bin_index, 1);
    assert_eq!(peaks[0].end_bin_index, 2);
    assert_eq!(peaks[0].frequency_start_hz, 2_401_000_000);
    assert_eq!(peaks[0].frequency_end_hz, 2_403_000_000);
    assert_eq!(peaks[0].bandwidth_hz, 2_000_000);
    assert_eq!(peaks[0].max_power, -20.0);
    assert_eq!(peaks[0].average_power, -27.0);
    assert_eq!(peaks[0].frequency, 2_402_000_000);
}

#[test]
fn emits_multiple_clusters_when_signal_gaps_exist() {
    let peaks = detect(-35.0, &[-20.0, -10.0, -80.0, -12.0, -15.0]);

    assert_eq!(peaks.len(), 2);
    assert_eq!(peaks[0].start_bin_index, 0);
    assert_eq!(peaks[0].end_bin_index, 1);
    assert_eq!(peaks[1].start_bin_index, 3);
    assert_eq!(peaks[1].end_bin_index, 4);
}

#[test]
fn runs_cover_every_strong_bin_and_nothing_else() {
    assert_eq!(strong_runs(&[]), vec![]);
    assert_eq!(strong_runs(&[false, false]), vec![]);
    assert_eq!(strong_runs(&[true]), vec![(0, 0)]);
    assert_eq!(strong_runs(&[true, false, true, true]), vec![(0, 0), (2, 3)]);
    assert_eq!(strong_runs(&[false, true, true, true]), vec![(1, 3)]);
}

#[test]
fn span_of_a_reversed_band_is_empty() {
    assert_eq!(peak_span(10, 4), (10, 0));
    assert_eq!(peak_span(10, 15), (12, 5));
}
