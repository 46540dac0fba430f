use spectraguard::simulator::{build_plan, parse_frequency_range, AttackScenario, PlanError};
use spectraguard::config::FrequencyRangeError;

#[test]
fn coordinated_emitter_plan_emits_parseable_sweeps() {
    let plan = build_plan(AttackScenario::CoordinatedEmitter, "2400:2500", 1_000_000).expect("plan should build");

    assert!(plan.frames.len() >= 5);

    for (index, frame) in plan.frames.iter().enumerate() {
        let line = frame.to_sweep_line("2026-05-12", "12:00:00.000000");
        let fields = line.split(',').map(str::trim).collect::<Vec<_>>();
        assert_eq!(
            fields.len(),
            9,
            "frame {} should emit date, time, five sweep fields, and three powers",
            index + 1
        );
        assert!(fields[2].parse::<u64>().is_ok());
        assert!(fields[3].parse::<u64>().is_ok());
        assert!(fields[4].parse::<f64>().is_ok());
        assert!(fields[5].parse::<u64>().is_ok());
        assert!(fields[6].parse::<f32>().is_ok());
        assert!(fields[7].parse::<f32>().is_ok());
        assert!(fields[8].parse::<f32>().is_ok());
    }
}

#[test]
fn plan_frames_follow_the_scenario_script() {
    let plan = build_plan(AttackScenario::PersistentEmitter, "2400:2500", 1_000_000).expect("plan should build");
    assert_eq!(plan.frames.len(), 5);
    let first = &plan.frames[0];
    assert_eq!(first.frequency_start_hz, 2_400_000_000);
    assert_eq!(first.frequency_end_hz, 2_403_000_000);
    assert_eq!(first.sample_count, 20);
    assert_eq!(first.power_db, vec![-28, -80, -80]);
    assert_eq!(first.delay_after_ms, 600);
    assert_eq!(plan.frames[4].offset_ms, 2_400);
    assert_eq!(plan.frames[4].delay_after_ms, 0);
    assert_eq!(
        first.to_sweep_line("2026-05-12", "12:00:00.000000"),
        "2026-05-12, 12:00:00.000000, 2400000000, 2403000000, 1000000.00, 20, -28.00, -80.00, -80.00"
    );

    let escalating = build_plan(AttackScenario::EscalatingBandActivity, "100:200", 5).expect("plan should build");
    assert_eq!(escalating.frames.len(), 5);
    assert_eq!(escalating.frames[4].power_db, vec![-8, -8, -8]);
    assert_eq!(escalating.frames[0].frequency_end_hz, 100_000_015);
}

#[test]
fn plan_refuses_bad_input() {
    assert_eq!(build_plan(AttackScenario::CoordinatedEmitter, "2400:2500", 0).err(), Some(PlanError::ZeroBinWidth));
    assert_eq!(
        build_plan(AttackScenario::CoordinatedEmitter, "2500:2400", 1).err(),
        Some(PlanError::Range(FrequencyRangeError::StartNotBelowEnd))
    );
    assert_eq!(
        build_plan(AttackScenario::CoordinatedEmitter, "18446744073709551614:18446744073709551615", 0).err(),
        Some(PlanError::ZeroBinWidth)
    );
    assert_eq!(PlanError::ZeroBinWidth.message(), "bin width must be greater than zero");
    assert_eq!(parse_frequency_range("1:2"), Ok((1, 2)));
    assert_eq!(parse_frequency_range("1"), Err(FrequencyRangeError::MissingEnd));
}
