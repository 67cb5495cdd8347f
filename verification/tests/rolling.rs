use zstats::rolling::ProcessWindows;
use zstats::snapshot::ProcessSnapshot;
use zstats::time::{Duration, Instant};

fn pct(percent: f32) -> u64 {
    (f64::from(percent) * 1e6).round() as u64
}

fn proc(pid: u32, cpu: f32, mem: u64) -> ProcessSnapshot {
    proc_at(pid, cpu, mem, 0)
}

fn proc_at(pid: u32, cpu: f32, mem: u64, cpu_time_ms: u64) -> ProcessSnapshot {
    ProcessSnapshot {
        pid,
        name: format!("p{pid}"),
        display_name: None,
        cmd: String::new(),
        cpu_usage_percent: pct(cpu),
        cpu_time_ms,
        memory_bytes: mem,
        phys_footprint_bytes: None,
        virtual_memory_bytes: mem,
        run_time_secs: 0,
        parent_pid: None,
        user_id: None,
        status: "Runnable".into(),
        read_bytes_per_sec: None,
        write_bytes_per_sec: None,
    }
}

fn start() -> Instant {
    Instant { nanos: 5 }
}

#[test]
fn averages_across_records_and_prunes_dead_pids() {
    let mut windows = ProcessWindows::new(Duration::from_secs(60));
    let base = start();

    let first = windows.record(base, &vec![proc(1, 10.0, 100)]);
    assert_eq!(first[&1].cpu_avg, pct(10.0));
    assert_eq!(first[&1].span, Duration::zero());
    assert_eq!(first[&1].samples, 1);

    let second = windows.record(base.after(Duration::from_secs(2)), &vec![proc(1, 30.0, 300)]);
    assert_eq!(second[&1].cpu_avg, pct(20.0));
    assert_eq!(second[&1].memory_avg_bytes, 200);
    assert_eq!(second[&1].span, Duration::from_secs(2));

    // pid 1 disappears: its window is dropped, a fresh pid starts clean
    let third = windows.record(base.after(Duration::from_secs(4)), &vec![proc(2, 50.0, 0)]);
    assert!(!third.contains_key(&1));
    assert_eq!(third[&2].samples, 1);

    // pid 1 comes back with an empty window (no stale average)
    let fourth = windows.record(base.after(Duration::from_secs(6)), &vec![proc(1, 90.0, 0)]);
    assert_eq!(fourth[&1].cpu_avg, pct(90.0));
    assert_eq!(fourth[&1].samples, 1);
}

#[test]
fn cpu_time_delta_measures_the_amount_a_low_percentage_process_costs() {
    let mut windows = ProcessWindows::new(Duration::from_secs(60));
    let base = start();

    // A steady 10% process: 100 core-ms per second of wall clock
    windows.record(base, &vec![proc_at(1, 10.0, 0, 5_000)]);
    let stats = windows.record(
        base.after(Duration::from_secs(30)),
        &vec![proc_at(1, 10.0, 0, 8_000)],
    );
    assert_eq!(stats[&1].cpu_time_delta_ms, 3_000);
    // ...which no average-vs-threshold test would ever surface
    assert_eq!(stats[&1].cpu_avg, pct(10.0));

    // A single sample has nothing to diff against
    let fresh = windows.record(
        base.after(Duration::from_secs(31)),
        &vec![proc_at(2, 90.0, 0, 999)],
    );
    assert_eq!(fresh[&2].cpu_time_delta_ms, 0);

    // A counter that went backwards (pid reuse) reports 0, not a wrap
    let reused = windows.record(
        base.after(Duration::from_secs(32)),
        &vec![proc_at(2, 90.0, 0, 10)],
    );
    assert_eq!(reused[&2].cpu_time_delta_ms, 0);
}

#[test]
fn samples_older_than_the_window_fall_off() {
    let mut windows = ProcessWindows::new(Duration::from_secs(60));
    let base = start();

    windows.record(base, &vec![proc(1, 100.0, 0)]);
    // 70s later the first sample is outside the 60s window
    let stats = windows.record(base.after(Duration::from_secs(70)), &vec![proc(1, 10.0, 0)]);
    assert_eq!(stats[&1].cpu_avg, pct(10.0));
    assert_eq!(stats[&1].samples, 1);
}

#[test]
fn a_sample_exactly_as_old_as_the_window_stays() {
    let mut windows = ProcessWindows::new(Duration::from_secs(60));
    let base = start();
    windows.record(base, &vec![proc(1, 100.0, 0)]);
    let stats = windows.record(base.after(Duration::from_secs(60)), &vec![proc(1, 10.0, 0)]);
    assert_eq!(stats[&1].samples, 2);
    assert_eq!(stats[&1].cpu_avg, pct(55.0));
}

#[test]
fn footprints_average_only_when_every_sample_has_one() {
    let mut windows = ProcessWindows::new(Duration::from_secs(60));
    let base = start();
    let mut p = proc(1, 0.0, 10);
    p.phys_footprint_bytes = Some(100);
    let first = windows.record(base, &vec![p]);
    assert_eq!(first[&1].footprint_avg_bytes, Some(100));
    assert_eq!(first[&1].footprint_sum_bytes, Some(100));
    let second = windows.record(base.after(Duration::from_secs(1)), &vec![proc(1, 0.0, 30)]);
    assert_eq!(second[&1].footprint_avg_bytes, None);
    assert_eq!(second[&1].memory_avg_bytes, 20);
    assert_eq!(second[&1].memory_sum_bytes, 40);
}

#[test]
fn an_average_lies_among_its_samples() {
    let mut windows = ProcessWindows::new(Duration::from_secs(60));
    let mut now = start();
    for cpu in [10.0, 40.0, 25.0] {
        now = now.after(Duration::from_secs(2));
        let stats = windows.record(now, &vec![proc(1, cpu, 100)]);
        assert!(stats[&1].cpu_avg >= pct(10.0) && stats[&1].cpu_avg <= pct(40.0));
        assert_eq!(stats[&1].memory_avg_bytes, 100);
    }
}
