use spectraguard::ml::{class_counts, count_correct, enough_training_rows, number_labels, segment_peaks, PeakPoint};

fn point(detected_at_ms: u64, start: u64, end: u64) -> PeakPoint {
    PeakPoint { detected_at_ms, frequency_start_hz: start, frequency_end_hz: end }
}

#[test]
fn peaks_close_in_time_and_band_form_one_segment() {
    let segs = segment_peaks(&[
        point(1_000, 100, 200),
        point(2_500, 150, 250),
        point(5_000, 150, 250),
        point(5_100, 300, 400),
    ]);
    assert_eq!(segs.len(), 3);
    assert_eq!(segs[0].members, vec![0, 1]);
    assert_eq!(segs[0].start_ms, 1_000);
    assert_eq!(segs[0].end_ms, 2_500);
    assert_eq!(segs[0].frequency_start_hz, 100);
    assert_eq!(segs[0].frequency_end_hz, 250);
    assert_eq!(segs[1].members, vec![2]);
    assert_eq!(segs[2].members, vec![3]);
    assert!(segment_peaks(&[]).is_empty());
}

#[test]
fn labels_are_numbered_by_first_appearance() {
    let labels = vec!["wifi".to_string(), "bluetooth".to_string(), "wifi".to_string(), "drone".to_string()];
    let (indices, distinct) = number_labels(&labels);
    assert_eq!(indices, vec![0, 1, 0, 2]);
    assert_eq!(distinct, vec!["wifi".to_string(), "bluetooth".to_string(), "drone".to_string()]);
}

#[test]
fn predictions_are_tallied_per_class() {
    let predictions = [0, 1, 1, 2];
    let actual = [0, 1, 2, 2, 1];
    assert_eq!(count_correct(&predictions, &actual), 3);
    let c = class_counts(&predictions, &actual, 1);
    assert_eq!(c.true_positive, 1);
    assert_eq!(c.predicted_positive, 2);
    assert_eq!(c.actual_positive, 2);
    assert!(!enough_training_rows(4));
    assert!(enough_training_rows(5));
}
