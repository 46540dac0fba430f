use spectraguard::buffers::{latest, push_bounded};
use spectraguard::power::{power_bits, power_order_key};
use std::collections::VecDeque;

#[test]
fn order_keys_sort_like_readings() {
    let readings = [f32::NEG_INFINITY, -80.0, -20.5, -0.0, 0.0, 1.5e-3, 12.0, f32::INFINITY];
    let keys = readings.iter().map(|r| power_order_key(r.to_bits())).collect::<Vec<_>>();
    for pair in keys.windows(2) {
        assert!(pair[0] < pair[1]);
    }
    for r in readings {
        assert_eq!(f32::from_bits(power_bits(power_order_key(r.to_bits()))).to_bits(), r.to_bits());
    }
}

#[test]
fn retains_latest_igor_assessments_within_buffer_limit() {
    let mut assessments: VecDeque<String> = VecDeque::new();
    push_bounded(&mut assessments, "igor-1".to_string(), 1);
    push_bounded(&mut assessments, "igor-2".to_string(), 1);
    assert_eq!(assessments.len(), 1);
    assert_eq!(assessments.front().expect("assessment should exist"), "igor-2");
}

#[test]
fn latest_keeps_the_tail() {
    assert_eq!(latest(vec![1, 2, 3, 4], 2), vec![3, 4]);
    assert_eq!(latest(vec![1, 2], 5), vec![1, 2]);
    assert_eq!(latest(vec![1, 2], 0), Vec::<i32>::new());
}
