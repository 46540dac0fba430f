use std::collections::HashMap;

use spectraguard::detection::occupancy_tracker::{CountStats, OccupancyCounter};

/// The tracker of the detection pipeline: the counter keeps the sample
/// counts, this side keeps the power sums bucket for bucket.
struct Tracker {
    threshold_db: f32,
    counter: OccupancyCounter,
    power: HashMap<u64, Vec<f64>>,
}

fn percentage(active: u64, total: u64) -> f32 {
    if total == 0 { 0.0 } else { (active as f32 / total as f32) * 100.0 }
}

impl Tracker {
    fn new(threshold_db: f32, window_seconds: u64, recent_window_seconds: u64) -> Self {
        Tracker { threshold_db, counter: OccupancyCounter::new(window_seconds, recent_window_seconds), power: HashMap::new() }
    }

    fn update(&mut self, captured_at_ms: u64, start_hz: u64, bin_width_hz: u64, powers: &[f32]) {
        let second = captured_at_ms / 1000;
        let samples = powers
            .iter()
            .enumerate()
            .map(|(i, p)| (start_hz + bin_width_hz * i as u64 + bin_width_hz / 2, *p >= self.threshold_db))
            .collect::<Vec<_>>();
        let (outcomes, reports) = self.counter.update(second, &samples);
        for ((frequency, _), (outcome, power)) in samples.iter().zip(outcomes.iter().zip(powers)) {
            let sums = self.power.entry(*frequency).or_default();
            if outcome.merged {
                *sums.last_mut().expect("merged into a bucket") += *power as f64;
            } else {
                sums.push(*power as f64);
            }
            sums.drain(0..outcome.trimmed);
        }
        for report in reports {
            let sums = self.power.entry(report.frequency_hz).or_default();
            sums.drain(0..report.trimmed);
            if report.removed {
                self.power.remove(&report.frequency_hz);
            }
        }
    }
}

#[test]
fn computes_activity_percentages_over_rolling_window() {
    let mut tracker = Tracker::new(-35.0, 300, 60);
    tracker.update(1_000, 2_400_000_000, 1_000_000, &[-20.0, -50.0, -50.0]);
    tracker.update(2_000, 2_400_000_000, 1_000_000, &[-20.0, -20.0, -50.0]);

    let (_, bins) = tracker.counter.snapshot_counts(2);

    assert_eq!(bins.len(), 3);
    assert_eq!(bins[0].frequency_hz, 2_400_500_000);
    assert_eq!(percentage(bins[0].total_active_samples, bins[0].total_samples), 100.0);
    assert_eq!(percentage(bins[1].total_active_samples, bins[1].total_samples), 50.0);
    assert_eq!(percentage(bins[2].total_active_samples, bins[2].total_samples), 0.0);
    let sums = &tracker.power[&2_400_500_000];
    assert_eq!(sums.iter().sum::<f64>() / bins[0].total_samples as f64, -20.0);
}

#[test]
fn computes_range_activity_percentages() {
    let mut tracker = Tracker::new(-35.0, 300, 60);
    tracker.update(1_000, 2_400_000_000, 1_000_000, &[-20.0, -50.0, -50.0]);
    tracker.update(2_000, 2_400_000_000, 1_000_000, &[-20.0, -20.0, -50.0]);

    let (_, matching) = tracker.counter.range_counts(2_400_000_000, 2_402_000_000, 2);
    let recent = matching
        .iter()
        .map(|s: &CountStats| percentage(s.recent_active_samples, s.recent_samples))
        .sum::<f32>()
        / matching.len() as f32;
    let baseline = matching
        .iter()
        .map(|s: &CountStats| percentage(s.total_active_samples, s.total_samples))
        .sum::<f32>()
        / matching.len() as f32;

    assert_eq!(recent, 75.0);
    assert_eq!(baseline, 75.0);
}

#[test]
fn old_buckets_leave_the_window() {
    let mut counter = OccupancyCounter::new(2, 1);
    counter.record(100, 1, true);
    counter.record(100, 1, false);
    let o = counter.record(100, 2, true);
    assert!(!o.merged);
    assert_eq!(o.trimmed, 0);
    let o = counter.record(100, 3, false);
    assert_eq!(o.trimmed, 1);
    let (_, stats) = counter.snapshot_counts(3);
    assert_eq!(stats.len(), 1);
    assert_eq!(stats[0].total_samples, 2);
    assert_eq!(stats[0].total_active_samples, 1);
    assert_eq!(stats[0].active_duration_seconds, 1);
    assert_eq!(stats[0].recent_samples, 1);
    assert_eq!(stats[0].recent_active_samples, 0);

    let reports = counter.prune(10);
    assert_eq!(reports.len(), 1);
    assert!(reports[0].removed);
    assert_eq!(reports[0].trimmed, 2);
    let (_, stats) = counter.snapshot_counts(10);
    assert!(stats.is_empty());
}
