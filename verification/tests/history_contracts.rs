use bmtop::history::{CpuDelta, ProcessCpuHistory, ProcessEnergyCounters, ProcessEnergyHistory};

const SECOND: u64 = 1_000_000_000;

fn cpu_percent(delta: Option<CpuDelta>) -> Option<f64> {
    delta.map(|d| (d.ticks as f64 / 1e9 / (d.elapsed_ns as f64 / 1e9) * 100.0).min(10_000.0))
}

fn counters(cpu_nanoseconds: u64, idle_wakeups: u64) -> ProcessEnergyCounters {
    ProcessEnergyCounters { cpu_nanoseconds, idle_wakeups, ..ProcessEnergyCounters::default() }
}

#[test]
fn process_cpu_first_sample_yields_no_percent() {
    let mut history = ProcessCpuHistory::default();
    assert_eq!(history.cpu_delta(100, 10, 0, 5_000, 5_000, SECOND), None);
}

#[test]
fn process_cpu_percent_is_delta_over_elapsed() {
    let mut history = ProcessCpuHistory::default();
    history.cpu_delta(100, 10, 0, 0, 0, SECOND);
    let delta = history.cpu_delta(100, 10, 0, 600_000_000, 400_000_000, 3 * SECOND);
    assert_eq!(delta, Some(CpuDelta { ticks: 1_000_000_000, elapsed_ns: 2 * SECOND }));
    let percent = cpu_percent(delta).unwrap();
    assert!((percent - 50.0).abs() < 1e-9, "got {percent}");
}

#[test]
fn process_cpu_pid_reuse_starts_a_fresh_series() {
    let mut history = ProcessCpuHistory::default();
    history.cpu_delta(100, 10, 0, 9_000_000_000, 0, SECOND);
    assert_eq!(history.cpu_delta(100, 77, 0, 1_000_000, 0, 2 * SECOND), None);
}

#[test]
fn process_cpu_counter_regression_yields_none_and_percent_is_clamped() {
    let mut history = ProcessCpuHistory::default();
    history.cpu_delta(100, 10, 0, 5_000_000_000, 0, SECOND);
    assert_eq!(history.cpu_delta(100, 10, 0, 1_000_000_000, 0, 2 * SECOND), None);
    let mut clamped = ProcessCpuHistory::default();
    clamped.cpu_delta(200, 10, 0, 0, 0, SECOND);
    let value = cpu_percent(clamped.cpu_delta(200, 10, 0, u64::MAX / 2, 0, 2 * SECOND)).unwrap();
    assert_eq!(value, 10_000.0);
}

#[test]
fn process_cpu_entries_expire_after_two_minutes() {
    let mut history = ProcessCpuHistory::default();
    history.cpu_delta(100, 10, 0, 1_000_000_000, 0, SECOND);
    history.cpu_delta(300, 10, 0, 0, 0, 122 * SECOND);
    assert_eq!(history.cpu_delta(100, 10, 0, 2_000_000_000, 0, 123 * SECOND), None);
}

#[test]
fn a_frozen_clock_yields_no_sample() {
    let mut history = ProcessCpuHistory::default();
    history.cpu_delta(1, 1, 1, 0, 0, 5 * SECOND);
    assert_eq!(history.cpu_delta(1, 1, 1, 10, 0, 5 * SECOND), None);
    assert_eq!(history.cpu_delta(1, 1, 1, 20, 0, 6 * SECOND), Some(CpuDelta { ticks: 10, elapsed_ns: SECOND }));
}

#[test]
fn first_sample_has_no_impact() {
    let mut history = ProcessEnergyHistory::default();
    assert_eq!(history.energy_delta(1, 10, 0, counters(1_000_000_000, 0), SECOND), None);
}

#[test]
fn full_core_second_scores_one_hundred_like_cpu_percent() {
    let mut history = ProcessEnergyHistory::default();
    history.energy_delta(1, 10, 0, counters(0, 0), SECOND);
    let delta = history.energy_delta(1, 10, 0, counters(1_000_000_000, 0), 2 * SECOND).unwrap();
    assert_eq!(delta.cpu_nanoseconds, 1_000_000_000);
    assert_eq!(delta.qos_nanoseconds, vec![0; 7]);
    assert_eq!(delta.elapsed_ns, SECOND);
    let impact = delta.cpu_nanoseconds as f64 / 1e9 / (delta.elapsed_ns as f64 / 1e9) * 100.0;
    assert!((impact - 100.0).abs() < 1e-6, "got {impact}");
}

#[test]
fn idle_wakeups_add_weighted_points() {
    let mut history = ProcessEnergyHistory::default();
    history.energy_delta(1, 10, 0, counters(0, 0), SECOND);
    let delta = history.energy_delta(1, 10, 0, counters(0, 500), 2 * SECOND).unwrap();
    assert_eq!(delta.wakeups, 500);
    let impact = 0.0002 * delta.wakeups as f64 / (delta.elapsed_ns as f64 / 1e9) * 100.0;
    assert!((impact - 10.0).abs() < 1e-6, "got {impact}");
}

#[test]
fn qos_buckets_win_over_the_cpu_fallback() {
    let mut history = ProcessEnergyHistory::default();
    let mut after = ProcessEnergyCounters { cpu_nanoseconds: 1_000_000_000, ..ProcessEnergyCounters::default() };
    after.qos_nanoseconds[2] = 1_000_000_000;
    history.energy_delta(1, 10, 0, ProcessEnergyCounters::default(), SECOND);
    let delta = history.energy_delta(1, 10, 0, after, 2 * SECOND).unwrap();
    assert_eq!(delta.qos_nanoseconds, vec![0, 0, 1_000_000_000, 0, 0, 0, 0]);
    let impact = 0.8 * delta.qos_nanoseconds[2] as f64 / 1e9 / (delta.elapsed_ns as f64 / 1e9) * 100.0;
    assert!((impact - 80.0).abs() < 1e-6, "got {impact}");
}

#[test]
fn interrupt_wakeups_stand_in_when_package_wakeups_stay_flat() {
    let mut history = ProcessEnergyHistory::default();
    let after = ProcessEnergyCounters { interrupt_wakeups: 500, ..ProcessEnergyCounters::default() };
    history.energy_delta(1, 10, 0, ProcessEnergyCounters::default(), SECOND);
    assert_eq!(history.energy_delta(1, 10, 0, after, 2 * SECOND).unwrap().wakeups, 500);
}

#[test]
fn package_wakeups_win_over_interrupt_wakeups() {
    let mut history = ProcessEnergyHistory::default();
    let after = ProcessEnergyCounters { idle_wakeups: 500, interrupt_wakeups: 900, ..ProcessEnergyCounters::default() };
    history.energy_delta(1, 10, 0, ProcessEnergyCounters::default(), SECOND);
    assert_eq!(history.energy_delta(1, 10, 0, after, 2 * SECOND).unwrap().wakeups, 500);
}

#[test]
fn counter_regression_yields_none() {
    let mut history = ProcessEnergyHistory::default();
    history.energy_delta(1, 10, 0, counters(5_000_000_000, 0), SECOND);
    assert_eq!(history.energy_delta(1, 10, 0, counters(1_000_000_000, 0), 2 * SECOND), None);
}

#[test]
fn reused_pid_starts_a_fresh_series() {
    let mut history = ProcessEnergyHistory::default();
    history.energy_delta(1, 10, 0, counters(9_000_000_000, 0), SECOND);
    assert_eq!(history.energy_delta(1, 77, 0, counters(1_000_000, 0), 2 * SECOND), None);
}

#[test]
fn stale_entries_expire() {
    let mut history = ProcessEnergyHistory::default();
    history.energy_delta(1, 10, 0, counters(1_000_000_000, 0), SECOND);
    history.energy_delta(2, 10, 0, counters(0, 0), 122 * SECOND);
    assert_eq!(history.energy_delta(1, 10, 0, counters(2_000_000_000, 0), 123 * SECOND), None);
}

#[test]
fn interrupt_wakeups_going_back_yield_none_even_when_package_wakeups_grow() {
    let mut history = ProcessEnergyHistory::default();
    let before = ProcessEnergyCounters { idle_wakeups: 100, interrupt_wakeups: 900, ..ProcessEnergyCounters::default() };
    let after = ProcessEnergyCounters { idle_wakeups: 500, interrupt_wakeups: 800, ..ProcessEnergyCounters::default() };
    history.energy_delta(1, 10, 0, before, SECOND);
    assert_eq!(history.energy_delta(1, 10, 0, after, 2 * SECOND), None);
}

#[test]
fn sampling_one_process_keeps_the_others_that_are_recent() {
    let mut history = ProcessEnergyHistory::default();
    history.energy_delta(1, 10, 0, counters(1_000_000_000, 0), SECOND);
    history.energy_delta(2, 10, 0, counters(0, 0), 100 * SECOND);
    let delta = history.energy_delta(1, 10, 0, counters(3_000_000_000, 0), 101 * SECOND).unwrap();
    assert_eq!(delta.cpu_nanoseconds, 2_000_000_000);
    assert_eq!(delta.elapsed_ns, 100 * SECOND);
}

#[test]
fn the_next_sample_is_compared_with_the_one_just_recorded() {
    let mut history = ProcessEnergyHistory::default();
    history.energy_delta(1, 10, 0, counters(0, 0), SECOND);
    assert_eq!(history.energy_delta(1, 10, 0, counters(1_000, 0), SECOND), None);
    let delta = history.energy_delta(1, 10, 0, counters(4_000, 0), 3 * SECOND).unwrap();
    assert_eq!(delta.cpu_nanoseconds, 3_000);
    assert_eq!(delta.elapsed_ns, 2 * SECOND);
}
