use zstats::alerts::active::ActiveThresholds;
use zstats::alerts::engine::{AlertEngine, WINDOW_NANOS};
use zstats::alerts::event::{AlertDetail, AlertKind, AlertSubject, Severity};
use zstats::alerts::thresholds::Thresholds;
use zstats::settings::{AlertsConfig, PressureAlert};
use zstats::snapshot::{
    Capabilities, CpuSnapshot, DiskSnapshot, HostInfo, LoadSnapshot, MemorySnapshot,
    ProcessGroupSnapshot, ProcessSnapshot, SystemSnapshot,
};
use zstats::time::{Duration, Instant};

/// Percents in millionths
fn pct(percent: f64) -> u64 {
    (percent * 1e6).round() as u64
}

/// A fraction of a whole as percents in millionths
fn share(fraction: f64) -> u64 {
    (fraction * 1e8).round() as u64
}

/// Percents in millionths, as settings hold them
fn ipct(percent: f64) -> i64 {
    (percent * 1e6).round() as i64
}

fn start() -> Instant {
    Instant { nanos: 1_000_000_000 }
}

/// A process with no CPU-time counter, so it can never qualify for the
/// top-spender recording: every threshold test stays about thresholds alone
fn proc(pid: u32, cpu: f32, mem: u64) -> ProcessSnapshot {
    proc_burning(pid, cpu, mem, 0)
}

fn proc_burning(pid: u32, cpu: f32, mem: u64, cpu_time_ms: u64) -> ProcessSnapshot {
    ProcessSnapshot {
        pid,
        name: format!("p{pid}"),
        display_name: None,
        cmd: String::new(),
        cpu_usage_percent: pct(cpu.into()),
        cpu_time_ms,
        memory_bytes: mem,
        phys_footprint_bytes: None,
        virtual_memory_bytes: mem,
        run_time_secs: 0,
        parent_pid: None,
        user_id: None,
        status: "Runnable".into(),
        read_bytes_per_sec: None,
        write_bytes_per_sec: None,
    }
}

fn snapshot(processes: Vec<ProcessSnapshot>, total_memory: u64) -> SystemSnapshot {
    SystemSnapshot {
        timestamp: 0,
        host: HostInfo {
            hostname: String::new(),
            os_name: String::new(),
            os_version: String::new(),
            kernel_version: None,
            arch: String::new(),
            uptime_secs: 0,
            labels: Vec::new(),
        },
        cpu: CpuSnapshot {
            usage_percent: 0,
            per_core_usage: Vec::new(),
            logical_cores: 0,
            physical_cores: None,
            frequency_mhz: None,
            per_core_frequency_mhz: Vec::new(),
            brand: None,
            perf_levels: None,
        },
        memory: MemorySnapshot {
            total_bytes: total_memory,
            used_bytes: 0,
            available_bytes: 0,
            swap_total_bytes: 0,
            swap_used_bytes: 0,
            used_percent: 0,
            swap_used_percent: 0,
            compressed_bytes: None,
            pressure_level: None,
            swap_ins_per_sec: None,
            swap_outs_per_sec: None,
            swap_thrashing: None,
            kernel_available_percent: None,
        },
        disks: None,
        networks: None,
        processes: Some(processes),
        process_groups: None,
        total_processes: None,
        battery: None,
        gpus: None,
        drives: None,
        load: LoadSnapshot {
            load1: 0,
            load5: 0,
            load15: 0,
        },
        temperatures: None,
        io_totals: Default::default(),
        capabilities: Capabilities::current("linux"),
        extras: Vec::new(),
    }
}

fn thresholds(
    cpu: Thresholds<u64>,
    memory: Thresholds<u64>,
    cooldown: Duration,
) -> ActiveThresholds {
    ActiveThresholds {
        cpu,
        memory,
        memory_ceiling: None,
        disk: Thresholds::new(None),
        app_cpu: Thresholds::new(None),
        app_memory: Thresholds::new(None),
        app_memory_ceiling: None,
        pressure: None,
        cooldown,
    }
}

fn disk(mount: &str, total: u64, available: u64) -> DiskSnapshot {
    let used = total.saturating_sub(available);
    let used_percent = if total == 0 {
        0.0
    } else {
        used as f64 / total as f64 * 100.0
    };
    DiskSnapshot {
        name: "disk0".into(),
        mount_point: mount.into(),
        file_system: "apfs".into(),
        kind: "SSD".into(),
        is_removable: false,
        total_bytes: total,
        available_bytes: available,
        used_percent: pct(used_percent),
        read_bytes_per_sec: None,
        write_bytes_per_sec: None,
    }
}

fn snapshot_disks(disks: Vec<DiskSnapshot>) -> SystemSnapshot {
    let mut s = snapshot(Vec::new(), 100);
    s.disks = Some(disks);
    s
}

/// Feed one sample every 2s for `steps` steps starting at `base + offset`,
/// returning how many alerts fired
fn drive(
    engine: &mut AlertEngine,
    active: &ActiveThresholds,
    base: Instant,
    offset: Duration,
    steps: u64,
    make_proc: impl Fn(u64) -> ProcessSnapshot,
    total_memory: u64,
) -> usize {
    let mut fired = 0;
    for i in 0..steps {
        let now = base.after(offset).after(Duration::from_secs(2 * i));
        fired += engine
            .evaluate(now, &snapshot(vec![make_proc(i)], total_memory), active)
            .events
            .len();
    }
    fired
}

#[test]
fn chronic_cpu_needs_full_slow_window_then_respects_cooldown() {
    // 150% is below the acute bar (3 x 100 = 300), so only the chronic
    // rule applies: nothing before the 5-minute window is ~full, then
    // one alert, then the cooldown suppresses re-fires
    let active = thresholds(
        Thresholds::new(Some(pct(100.0))),
        Thresholds::new(None),
        Duration::from_secs(600),
    );
    let mut engine = AlertEngine::new();
    let base = start();
    let mut fired = 0;

    for i in 0..160u64 {
        let now = base.after(Duration::from_secs(2 * i));
        fired += engine
            .evaluate(now, &snapshot(vec![proc(1, 150.0, 0)], 100), &active)
            .events
            .len();
        if 2 * i < 250 {
            assert_eq!(fired, 0, "no chronic alert before t=250s (t={}s)", 2 * i);
        }
    }
    assert_eq!(fired, 1);
}

#[test]
fn acute_runaway_fires_within_a_minute() {
    // 150% >= 3 x 30: the acute tier fires as soon as the 1-minute
    // window is ~full, long before the chronic window could
    let active = thresholds(
        Thresholds::new(Some(pct(30.0))),
        Thresholds::new(None),
        Duration::from_secs(600),
    );
    let mut engine = AlertEngine::new();
    let base = start();
    let mut messages = Vec::new();

    for i in 0..40u64 {
        let now = base.after(Duration::from_secs(2 * i));
        let events = engine
            .evaluate(now, &snapshot(vec![proc(1, 150.0, 0)], 100), &active)
            .events;
        if 2 * i < 50 {
            assert!(events.is_empty(), "no alert before t=50s (t={}s)", 2 * i);
        }
        messages.extend(events.into_iter().map(|e| e.summary()));
    }
    assert_eq!(messages.len(), 1);
    assert!(messages[0].contains("runaway"), "got: {}", messages[0]);
}

#[test]
fn acute_scales_with_the_effective_override() {
    // ghostty's override (100) raises its acute bar to 300: the same
    // 150% that is a runaway for a default process stays silent for it
    let cpu = Thresholds::new(Some(pct(30.0))).with_override("ghostty".into(), Some(pct(100.0)));
    let active = thresholds(cpu, Thresholds::new(None), Duration::from_secs(600));
    let mut engine = AlertEngine::new();
    let base = start();
    let mut messages = Vec::new();

    for i in 0..40u64 {
        let now = base.after(Duration::from_secs(2 * i));
        let mut ghostty = proc(1, 150.0, 0);
        ghostty.name = "ghostty".into();
        let other = proc(2, 150.0, 0);
        messages.extend(
            engine
                .evaluate(now, &snapshot(vec![ghostty, other], 100), &active)
                .events
                .into_iter()
                .map(|e| e.summary()),
        );
    }
    assert_eq!(messages.len(), 1);
    assert!(messages[0].contains("p2 (pid 2)"), "got: {}", messages[0]);
}

#[test]
fn acute_and_chronic_share_one_cooldown() {
    // A runaway alerts acutely at ~50s; the chronic rule matching the
    // same process at ~250s must NOT re-notify within the cooldown
    let active = thresholds(
        Thresholds::new(Some(pct(30.0))),
        Thresholds::new(None),
        Duration::from_secs(600),
    );
    let mut engine = AlertEngine::new();
    let fired = drive(
        &mut engine,
        &active,
        start(),
        Duration::zero(),
        160,
        |_| proc(1, 150.0, 0),
        100,
    );
    assert_eq!(fired, 1);
}

#[test]
fn cpu_below_threshold_never_fires() {
    let active = thresholds(
        Thresholds::new(Some(pct(100.0))),
        Thresholds::new(None),
        Duration::from_secs(600),
    );
    let mut engine = AlertEngine::new();
    let fired = drive(
        &mut engine,
        &active,
        start(),
        Duration::zero(),
        160,
        |_| proc(1, 60.0, 0),
        100,
    );
    assert_eq!(fired, 0);
}

#[test]
fn sustained_memory_fires_once_after_slow_window_fills() {
    let active = thresholds(
        Thresholds::new(None),
        Thresholds::new(Some(share(0.25))),
        Duration::from_secs(600),
    );
    let mut engine = AlertEngine::new();
    // 30% of total for 320s: one alert (memory is chronic-only, after
    // the 250s span), then cooldown
    let fired = drive(
        &mut engine,
        &active,
        start(),
        Duration::zero(),
        160,
        |_| proc(1, 0.0, 30),
        100,
    );
    assert_eq!(fired, 1);
}

#[test]
fn transient_memory_spike_does_not_alert() {
    let active = thresholds(
        Thresholds::new(None),
        Thresholds::new(Some(share(0.25))),
        Duration::from_secs(600),
    );
    let mut engine = AlertEngine::new();
    // A 10s spike at 60% averages away inside the 5-minute window
    let fired = drive(
        &mut engine,
        &active,
        start(),
        Duration::zero(),
        160,
        |i| proc(1, 0.0, if i < 5 { 60 } else { 5 }),
        100,
    );
    assert_eq!(fired, 0);
}

#[test]
fn per_process_override_beats_default() {
    let cpu = Thresholds::new(Some(pct(30.0))).with_override("Ghostty".into(), Some(pct(100.0)));
    let active = thresholds(cpu, Thresholds::new(None), Duration::from_secs(600));
    let mut engine = AlertEngine::new();
    let base = start();

    // Two processes both averaging 60%: the default-threshold one fires
    // (chronic, 60 >= 30), the overridden one stays quiet (60 < 100);
    // name match ignores case
    let mut messages = Vec::new();
    for i in 0..160u64 {
        let now = base.after(Duration::from_secs(2 * i));
        let mut ghostty = proc(1, 60.0, 0);
        ghostty.name = "ghostty".into();
        let other = proc(2, 60.0, 0);
        for event in engine
            .evaluate(now, &snapshot(vec![ghostty, other], 100), &active)
            .events
        {
            messages.push(event.summary());
        }
    }
    assert_eq!(messages.len(), 1);
    assert!(messages[0].contains("p2 (pid 2)"), "got: {}", messages[0]);
}

#[test]
fn zero_override_disables_rule_for_that_process() {
    let cpu = Thresholds::new(Some(pct(30.0))).with_override("p1".into(), None);
    let active = thresholds(cpu, Thresholds::new(None), Duration::from_secs(600));
    let mut engine = AlertEngine::new();
    let fired = drive(
        &mut engine,
        &active,
        start(),
        Duration::zero(),
        160,
        |_| proc(1, 150.0, 0),
        100,
    );
    assert_eq!(fired, 0);
}

#[test]
fn a_persisting_condition_notifies_once_not_every_cooldown() {
    // The behaviour a real machine exposed: a system daemon pegged
    // for an hour used to produce one notification per cooldown.
    // Being told once is the point; repeats add nothing
    let active = thresholds(
        Thresholds::new(None),
        Thresholds::new(Some(share(0.25))),
        Duration::from_secs(20),
    );
    let mut engine = AlertEngine::new();
    let fired = drive(
        &mut engine,
        &active,
        start(),
        Duration::zero(),
        400,
        |_| proc(1, 0.0, 30),
        100,
    );
    assert_eq!(fired, 1, "800s of sustained overload is still one event");
}

#[test]
fn events_carry_structure_a_gui_can_render_without_parsing_text() {
    let active = ActiveThresholds {
        cpu: Thresholds::new(Some(pct(30.0))),
        memory: Thresholds::new(None),
        disk: Thresholds::new(Some(share(0.90))),
        app_cpu: Thresholds::new(None),
        app_memory: Thresholds::new(None),
        memory_ceiling: None,
        app_memory_ceiling: None,
        pressure: Some(2),
        cooldown: Duration::from_secs(600),
    };
    let mut engine = AlertEngine::new();
    let base = start();
    let mut events = Vec::new();

    for i in 0..40u64 {
        let mut s = snapshot(vec![proc(1, 150.0, 0)], 100);
        s.disks = Some(vec![disk("/", 1000, 50)]);
        events.extend(
            engine
                .evaluate(base.after(Duration::from_secs(2 * i)), &s, &active)
                .events,
        );
    }

    let cpu = events
        .iter()
        .find(|e| e.kind() == AlertKind::Cpu)
        .expect("cpu event");
    // 150% is 3x the 30% threshold: the runaway tier
    assert_eq!(cpu.severity(), Severity::Critical);
    assert_eq!(
        cpu.subject,
        AlertSubject::Process {
            pid: 1,
            name: "p1".into(),
            display_name: None
        }
    );
    let AlertDetail::Cpu {
        avg_percent,
        threshold_percent,
        window,
        runaway,
    } = &cpu.detail
    else {
        panic!("expected a CPU measurement, got {:?}", cpu.detail);
    };
    assert!((*avg_percent as f64 / 1e6 - 150.0).abs() < 0.5);
    // The runaway bar is the effective threshold, already multiplied
    assert_eq!(*threshold_percent, pct(90.0) as u128);
    assert_eq!(window.nanos, WINDOW_NANOS);
    assert!(*runaway);
    assert!(cpu.repeat_after.is_none());

    let disk_event = events
        .iter()
        .find(|e| e.kind() == AlertKind::Disk)
        .expect("disk event");
    assert_eq!(disk_event.severity(), Severity::Warning);
    assert_eq!(
        disk_event.subject,
        AlertSubject::Volume {
            mount_point: "/".into()
        }
    );
    let AlertDetail::Disk { used_percent, .. } = &disk_event.detail else {
        panic!("expected a disk measurement");
    };
    assert!((*used_percent as f64 / 1e6 - 95.0).abs() < 0.5);

    // The default rendering is derived, not stored
    assert!(
        cpu.summary()
            .contains("p1 (pid 1) runaway: averaged 150% CPU"),
        "got: {}",
        cpu.summary()
    );
}

#[test]
fn a_long_episode_earns_exactly_one_follow_up() {
    // Going silent forever is its own failure mode: a single
    // notification can be missed. One reminder at 30 minutes, then
    // quiet again however long it lasts
    let active = thresholds(
        Thresholds::new(None),
        Thresholds::new(Some(share(0.25))),
        Duration::from_secs(20),
    );
    let mut engine = AlertEngine::new();
    let base = start();
    let mut messages = Vec::new();

    // 2 hours of unbroken overload at a 2s cadence
    for i in 0..3600u64 {
        messages.extend(
            engine
                .evaluate(
                    base.after(Duration::from_secs(2 * i)),
                    &snapshot(vec![proc(1, 0.0, 30)], 100),
                    &active,
                )
                .events
                .into_iter()
                .map(|e| e.summary()),
        );
    }
    assert_eq!(messages.len(), 2, "one crossing plus one follow-up");
    assert!(!messages[0].contains("still going"));
    assert!(
        messages[1].contains("still going after 30 min"),
        "got: {}",
        messages[1]
    );
}

#[test]
fn a_new_episode_notifies_again_once_the_condition_cleared() {
    let active = thresholds(
        Thresholds::new(None),
        Thresholds::new(Some(share(0.25))),
        Duration::from_secs(20),
    );
    let mut engine = AlertEngine::new();
    let base = start();

    // Over the bar long enough to alert once
    assert_eq!(
        drive(
            &mut engine,
            &active,
            base,
            Duration::zero(),
            160,
            |_| proc(1, 0.0, 30),
            100
        ),
        1
    );
    // Drops back under for a while: the episode ends (silently), and
    // the slow window refills with the low value
    assert_eq!(
        drive(
            &mut engine,
            &active,
            base,
            Duration::from_secs(320),
            160,
            |_| proc(1, 0.0, 5),
            100
        ),
        0
    );
    // Rising again is a NEW event and notifies
    assert_eq!(
        drive(
            &mut engine,
            &active,
            base,
            Duration::from_secs(640),
            160,
            |_| proc(1, 0.0, 30),
            100
        ),
        1
    );
}

#[test]
fn cooldown_still_floors_flapping_between_episodes() {
    // Straddling the threshold must not alert on every crossing:
    // the cooldown is the floor between episodes
    let active = thresholds(
        Thresholds::new(None),
        Thresholds::new(Some(share(0.25))),
        Duration::from_secs(600),
    );
    let mut engine = AlertEngine::new();
    let base = start();
    let mut fired = 0;
    // 800s alternating high/low every 60s (30 samples), so the
    // 5-minute average crosses repeatedly
    for i in 0..400u64 {
        let mem = if (i / 30) % 2 == 0 { 40 } else { 0 };
        fired += engine
            .evaluate(
                base.after(Duration::from_secs(2 * i)),
                &snapshot(vec![proc(1, 0.0, mem)], 100),
                &active,
            )
            .events
            .len();
    }
    assert!(fired <= 2, "cooldown must bound flapping, got {fired}");
}

#[test]
fn dead_process_resets_state() {
    let active = thresholds(
        Thresholds::new(None),
        Thresholds::new(Some(share(0.25))),
        Duration::from_secs(600),
    );
    let mut engine = AlertEngine::new();
    let base = start();
    // Sustained hog fires once (chronic, at ~250s)
    assert_eq!(
        drive(
            &mut engine,
            &active,
            base,
            Duration::zero(),
            130,
            |_| proc(1, 0.0, 30),
            100
        ),
        1
    );
    // pid 1 disappears for one round: its history and cooldown reset
    let _ = engine.evaluate(
        base.after(Duration::from_secs(260)),
        &snapshot(vec![proc(2, 0.0, 1)], 100),
        &active,
    );
    // The same pid reappears as a hog: refills its slow window, then
    // fires again well within the original cooldown span
    assert_eq!(
        drive(
            &mut engine,
            &active,
            base,
            Duration::from_secs(262),
            130,
            |_| proc(1, 0.0, 30),
            100
        ),
        1
    );
}

#[test]
fn records_qualifying_process_once_per_minute() {
    let active = thresholds(
        Thresholds::new(Some(pct(30.0))),
        Thresholds::new(None),
        Duration::from_secs(600),
    );
    let mut engine = AlertEngine::new();
    let base = start();
    let mut records = Vec::new();

    // 80s at a 2s cadence: the t=0 recording pass has an empty window,
    // the t=60s pass has a full one — exactly one record
    for i in 0..40u64 {
        let now = base.after(Duration::from_secs(2 * i));
        records.extend(
            engine
                .evaluate(now, &snapshot(vec![proc(1, 150.0, 40)], 100), &active)
                .records,
        );
    }
    assert_eq!(records.len(), 1);
    assert_eq!(records[0].pid, 1);
    assert_eq!(records[0].name, "p1");
    assert!((records[0].cpu_avg_percent as f64 / 1e6 - 150.0).abs() < 0.5);
    assert!((records[0].memory_share_percent as f64 / 1e6 - 40.0).abs() < 0.5);
}

#[test]
fn recording_uses_base_threshold_despite_override() {
    // Override silences ghostty's notification at 60% (< 100), but the
    // base threshold (30) still records it
    let cpu = Thresholds::new(Some(pct(30.0))).with_override("ghostty".into(), Some(pct(100.0)));
    let active = thresholds(cpu, Thresholds::new(None), Duration::from_secs(600));
    let mut engine = AlertEngine::new();
    let base = start();
    let mut records = Vec::new();
    let mut events = Vec::new();

    for i in 0..40u64 {
        let now = base.after(Duration::from_secs(2 * i));
        let mut ghostty = proc(1, 60.0, 0);
        ghostty.name = "ghostty".into();
        let evaluation = engine.evaluate(now, &snapshot(vec![ghostty], 100), &active);
        events.extend(evaluation.events);
        records.extend(evaluation.records);
    }
    assert!(events.is_empty());
    assert_eq!(records.len(), 1);
    assert_eq!(records[0].name, "ghostty");
}

/// The blind spot this criterion exists to close: a process that
/// never approaches a threshold, but quietly outspends everything
/// that does. No rule here can catch it — and nothing should
/// interrupt over it — but the data has to survive so the question
/// can be asked a day later
#[test]
fn steady_low_cpu_is_recorded_even_though_no_rule_can_fire() {
    let active = thresholds(
        Thresholds::new(Some(pct(30.0))),
        Thresholds::new(Some(share(0.25))),
        Duration::from_secs(600),
    );
    let mut engine = AlertEngine::new();
    let base = start();
    let mut records = Vec::new();
    let mut events = Vec::new();

    // A rock-steady 10% (200 core-ms per 2s tick) on a process that
    // has already been running a while — the counter is absolute
    const ALREADY_BURNED: u64 = 1_000_000;
    for i in 0..40u64 {
        let now = base.after(Duration::from_secs(2 * i));
        let p = proc_burning(1, 10.0, 5, ALREADY_BURNED + 200 * i);
        let evaluation = engine.evaluate(now, &snapshot(vec![p], 100), &active);
        events.extend(evaluation.events);
        records.extend(evaluation.records);
    }

    assert!(events.is_empty(), "10% must never interrupt anyone");
    assert_eq!(records.len(), 1, "one record per minute");
    assert!((records[0].cpu_avg_percent as f64 / 1e6 - 10.0).abs() < 0.5);
    // The lifetime counter, not the window's 6 core-seconds: only an
    // absolute value stays exact for a pid recorded on some minutes
    // and not others
    assert_eq!(records[0].cpu_time_ms, ALREADY_BURNED + 200 * 30);
}

#[test]
fn below_base_thresholds_records_nothing() {
    let active = thresholds(
        Thresholds::new(Some(pct(30.0))),
        Thresholds::new(Some(share(0.25))),
        Duration::from_secs(600),
    );
    let mut engine = AlertEngine::new();
    let base = start();
    for i in 0..40u64 {
        let now = base.after(Duration::from_secs(2 * i));
        let evaluation = engine.evaluate(now, &snapshot(vec![proc(1, 10.0, 5)], 100), &active);
        assert!(evaluation.records.is_empty());
    }
}

#[test]
fn disk_crossing_alerts_once_then_rearms_below_margin() {
    let active = ActiveThresholds {
        cpu: Thresholds::new(None),
        memory: Thresholds::new(None),
        disk: Thresholds::new(Some(share(0.90))),
        app_cpu: Thresholds::new(None),
        app_memory: Thresholds::new(None),
        memory_ceiling: None,
        app_memory_ceiling: None,
        pressure: None,
        cooldown: Duration::from_secs(600),
    };
    let mut engine = AlertEngine::new();
    let base = start();
    let mut step = |i: u64, used_pct: u64| {
        engine
            .evaluate(
                base.after(Duration::from_secs(2 * i)),
                &snapshot_disks(vec![disk("/", 1000, 1000 - used_pct * 10)]),
                &active,
            )
            .events
    };

    assert!(step(0, 85).is_empty(), "below threshold");
    let fired = step(1, 91);
    assert_eq!(fired.len(), 1, "crossing fires once");
    assert!(fired[0].summary().contains("disk / is 91% full"));
    assert!(step(2, 93).is_empty(), "still full: no nagging");
    assert!(step(3, 87).is_empty(), "above the re-arm line: still quiet");
    assert!(step(4, 84).is_empty(), "re-armed silently");
    assert_eq!(step(5, 92).len(), 1, "second crossing fires again");
}

#[test]
fn disk_override_disables_backup_volume() {
    // A Time-Machine-style volume runs full by design: override 0
    // silences it while the system volume still alerts
    let disk_rule = Thresholds::new(Some(share(0.90))).with_override("/Volumes/Backup".into(), None);
    let active = ActiveThresholds {
        cpu: Thresholds::new(None),
        memory: Thresholds::new(None),
        disk: disk_rule,
        app_cpu: Thresholds::new(None),
        app_memory: Thresholds::new(None),
        memory_ceiling: None,
        app_memory_ceiling: None,
        pressure: None,
        cooldown: Duration::from_secs(600),
    };
    let mut engine = AlertEngine::new();
    let events = engine
        .evaluate(
            start(),
            &snapshot_disks(vec![disk("/Volumes/Backup", 1000, 10), disk("/", 1000, 50)]),
            &active,
        )
        .events;
    assert_eq!(events.len(), 1);
    assert!(events[0].summary().contains("disk / is 95% full"));
}

fn group(root_pid: u32, name: &str, count: u32, cpu: f32, mem: u64) -> ProcessGroupSnapshot {
    ProcessGroupSnapshot {
        root_pid,
        name: name.into(),
        display_name: None,
        process_count: count,
        cpu_usage_percent: pct(cpu.into()),
        memory_bytes: mem,
        phys_footprint_bytes: None,
        read_bytes_per_sec: None,
        write_bytes_per_sec: None,
    }
}

fn app_thresholds(cpu: Thresholds<u64>, memory: Thresholds<u64>) -> ActiveThresholds {
    ActiveThresholds {
        cpu: Thresholds::new(None),
        memory: Thresholds::new(None),
        disk: Thresholds::new(None),
        app_cpu: cpu,
        app_memory: memory,
        memory_ceiling: None,
        app_memory_ceiling: None,
        pressure: None,
        cooldown: Duration::from_secs(600),
    }
}

#[test]
fn app_group_alerts_on_the_total_no_member_reaches() {
    // Chrome-shaped: 12 helpers at 20% each is 240% for the app, and
    // not one of them would trip a per-process rule
    let active = app_thresholds(Thresholds::new(Some(pct(200.0))), Thresholds::new(None));
    let mut engine = AlertEngine::new();
    let base = start();
    let mut messages = Vec::new();

    for i in 0..160u64 {
        let mut s = snapshot(Vec::new(), 100);
        s.process_groups = Some(vec![group(
            10,
            "Google Chrome",
            12,
            240.0,
            0,
        )]);
        messages.extend(
            engine
                .evaluate(base.after(Duration::from_secs(2 * i)), &s, &active)
                .events
                .into_iter()
                .map(|e| e.summary()),
        );
    }
    assert_eq!(messages.len(), 1, "chronic app rule fires once");
    assert!(
        messages[0].contains("Google Chrome (12 processes) averaged 240% CPU"),
        "got: {}",
        messages[0]
    );
}

#[test]
fn app_group_rules_respect_overrides_and_window() {
    let cpu = Thresholds::new(Some(pct(200.0))).with_override("Google Chrome".into(), None);
    let active = app_thresholds(cpu, Thresholds::new(Some(share(0.40))));
    let mut engine = AlertEngine::new();
    let base = start();
    let mut messages = Vec::new();

    for i in 0..160u64 {
        let mut s = snapshot(Vec::new(), 100);
        s.process_groups = Some(vec![
            // CPU rule disabled for this app; memory rule still applies
            group(10, "Google Chrome", 12, 240.0, 50),
            // Under both thresholds
            group(20, "Finder", 1, 10.0, 5),
        ]);
        let events = engine
            .evaluate(base.after(Duration::from_secs(2 * i)), &s, &active)
            .events;
        if 2 * i < 250 {
            assert!(
                events.is_empty(),
                "not before the slow window (t={}s)",
                2 * i
            );
        }
        messages.extend(events.into_iter().map(|e| e.summary()));
    }
    assert_eq!(messages.len(), 1);
    assert!(
        messages[0].contains("50% of total memory"),
        "got: {}",
        messages[0]
    );
}

#[test]
fn app_group_rules_are_skipped_without_group_data() {
    let active = app_thresholds(Thresholds::new(Some(pct(1.0))), Thresholds::new(Some(share(0.01))));
    let mut engine = AlertEngine::new();
    let base = start();
    for i in 0..160u64 {
        // process_groups is None (collection disabled)
        let s = snapshot(Vec::new(), 100);
        assert!(
            engine
                .evaluate(base.after(Duration::from_secs(2 * i)), &s, &active)
                .events
                .is_empty()
        );
    }
}

#[test]
fn pressure_alerts_on_warning_escalates_to_critical_then_rearms() {
    let active = ActiveThresholds {
        cpu: Thresholds::new(None),
        memory: Thresholds::new(None),
        disk: Thresholds::new(None),
        app_cpu: Thresholds::new(None),
        app_memory: Thresholds::new(None),
        memory_ceiling: None,
        app_memory_ceiling: None,
        pressure: Some(2),
        cooldown: Duration::from_secs(600),
    };
    let mut engine = AlertEngine::new();
    let base = start();
    let mut step = |i: u64, level: u32| {
        let mut s = snapshot(Vec::new(), 100);
        s.memory.pressure_level = Some(level);
        engine
            .evaluate(base.after(Duration::from_secs(2 * i)), &s, &active)
            .events
    };

    // Steps are 2s apart and the episode starts at step 1 (t=2s), so
    // the warning's SLOW_WINDOW (300s) is served at step 151
    assert!(step(0, 1).is_empty(), "normal is silent");
    for i in 1..151 {
        assert!(
            step(i, 2).is_empty(),
            "transient warning must stay silent (t={}s)",
            2 * i
        );
    }
    let warn = step(151, 2);
    assert_eq!(warn.len(), 1, "sustained warning alerts once");
    assert!(
        warn[0].summary().contains("warning for 5 min"),
        "got: {}",
        warn[0].summary()
    );
    assert!(step(152, 2).is_empty(), "lingering warning does not nag");
    let crit = step(153, 4);
    assert_eq!(crit.len(), 1, "worsening escalates without waiting again");
    assert!(crit[0].summary().contains("critical"));
    assert!(
        step(154, 2).is_empty(),
        "improving within the episode is silent"
    );
    assert!(step(155, 1).is_empty(), "back to normal re-arms silently");
    // A new episode must serve its own persistence requirement
    assert!(step(156, 2).is_empty(), "new episode restarts the clock");
    assert_eq!(step(306, 2).len(), 1, "and alerts once sustained again");
}

#[test]
fn critical_pressure_alerts_faster_than_warning() {
    // An episode that starts at critical needs only WINDOW (60s),
    // not the 5 minutes a warning must persist
    let active = ActiveThresholds {
        cpu: Thresholds::new(None),
        memory: Thresholds::new(None),
        disk: Thresholds::new(None),
        app_cpu: Thresholds::new(None),
        app_memory: Thresholds::new(None),
        memory_ceiling: None,
        app_memory_ceiling: None,
        pressure: Some(2),
        cooldown: Duration::from_secs(600),
    };
    let mut engine = AlertEngine::new();
    let base = start();
    let mut fired = 0;
    for i in 0..40u64 {
        let mut s = snapshot(Vec::new(), 100);
        s.memory.pressure_level = Some(4);
        let events = engine
            .evaluate(base.after(Duration::from_secs(2 * i)), &s, &active)
            .events;
        if 2 * i < 60 {
            assert!(events.is_empty(), "not before 60s (t={}s)", 2 * i);
        }
        fired += events.len();
    }
    assert_eq!(fired, 1);
}

#[test]
fn critical_only_setting_ignores_sustained_warning() {
    // The memory-heavy case: warning is this machine's normal state,
    // so only critical should ever interrupt
    let active = ActiveThresholds {
        cpu: Thresholds::new(None),
        memory: Thresholds::new(None),
        disk: Thresholds::new(None),
        app_cpu: Thresholds::new(None),
        app_memory: Thresholds::new(None),
        memory_ceiling: None,
        app_memory_ceiling: None,
        pressure: Some(4),
        cooldown: Duration::from_secs(600),
    };
    let mut engine = AlertEngine::new();
    let base = start();
    let mut fired = 0;
    for i in 0..200u64 {
        let mut s = snapshot(Vec::new(), 100);
        // Warning for 400s straight, then critical
        s.memory.pressure_level = Some(if i < 200 { 2 } else { 4 });
        fired += engine
            .evaluate(base.after(Duration::from_secs(2 * i)), &s, &active)
            .events
            .len();
    }
    assert_eq!(fired, 0, "sustained warning never alerts at critical-only");
}

#[test]
fn pressure_rule_can_be_disabled_and_skips_absent_data() {
    let mut active = ActiveThresholds {
        cpu: Thresholds::new(None),
        memory: Thresholds::new(None),
        disk: Thresholds::new(None),
        app_cpu: Thresholds::new(None),
        app_memory: Thresholds::new(None),
        memory_ceiling: None,
        app_memory_ceiling: None,
        pressure: None,
        cooldown: Duration::from_secs(600),
    };
    let mut engine = AlertEngine::new();
    let mut s = snapshot(Vec::new(), 100);
    s.memory.pressure_level = Some(4);
    assert!(
        engine
            .evaluate(start(), &s, &active)
            .events
            .is_empty(),
        "disabled rule stays silent even at critical"
    );

    // Enabled but the platform reports no level (non-macOS): silent
    active.pressure = Some(2);
    let s = snapshot(Vec::new(), 100);
    assert!(
        engine
            .evaluate(start(), &s, &active)
            .events
            .is_empty()
    );
}

#[test]
fn from_config_uses_builtin_defaults_when_nothing_is_set() {
    let merged = ActiveThresholds::from_config(&AlertsConfig::default());
    assert_eq!(merged.cpu.for_process("any"), Some(pct(30.0)));
    assert_eq!(merged.memory.for_process("any"), Some(share(0.25)));
    assert_eq!(merged.disk.for_process("/"), Some(share(0.90)));
    assert_eq!(merged.pressure, Some(2));
    assert_eq!(merged.cooldown, Duration::from_secs(600));
    assert!(merged.any_enabled(Capabilities::current("linux")));

    // The key's original boolean form still parses, and the
    // three-way form maps to kernel levels
    let off = AlertsConfig {
        pressure: Some(PressureAlert::from_bool(false)),
        ..Default::default()
    };
    assert_eq!(ActiveThresholds::from_config(&off).pressure, None);
    let warn = AlertsConfig {
        pressure: Some(PressureAlert::from_bool(true)),
        ..Default::default()
    };
    assert_eq!(ActiveThresholds::from_config(&warn).pressure, Some(2));
    let crit = AlertsConfig {
        pressure: Some(PressureAlert::parse("critical").expect("name form")),
        ..Default::default()
    };
    assert_eq!(ActiveThresholds::from_config(&crit).pressure, Some(4));
    assert!(PressureAlert::parse("loud").is_err());
}

#[test]
fn from_config_disk_zero_disables_and_overrides_map() {
    let mut file = AlertsConfig {
        disk: Some(ipct(0.0)),
        ..Default::default()
    };
    let merged = ActiveThresholds::from_config(&file);
    assert_eq!(merged.disk.for_process("/"), None);

    file.disk = Some(ipct(80.0));
    file.disk_overrides.insert("/Volumes/Backup", ipct(0.0));
    let merged = ActiveThresholds::from_config(&file);
    assert_eq!(merged.disk.for_process("/"), Some(share(0.80)));
    assert_eq!(merged.disk.for_process("/Volumes/Backup"), None);
}

#[test]
fn from_config_file_beats_builtin() {
    let mut file = AlertsConfig {
        cpu: Some(ipct(50.0)),
        cooldown: Some(Duration::from_secs(300)),
        ..Default::default()
    };
    file.cpu_overrides.insert("ghostty", ipct(100.0));

    let merged = ActiveThresholds::from_config(&file);
    assert_eq!(merged.cpu.for_process("other"), Some(pct(50.0)));
    assert_eq!(merged.cpu.for_process("Ghostty"), Some(pct(100.0)));
    assert_eq!(merged.cpu.base(), Some(pct(50.0)));
    assert_eq!(merged.cooldown, Duration::from_secs(300));
}

#[test]
fn template_fills_names_the_user_did_not_configure() {
    let merged = ActiveThresholds::from_config(&AlertsConfig::default());
    // Template entries are active out of the box
    assert_eq!(merged.cpu.for_process("Google Chrome"), Some(pct(100.0)));
    assert_eq!(merged.cpu.for_process("SourceKitService"), Some(pct(200.0)));
    // A template value of 0 disables the rule for that process
    assert_eq!(merged.cpu.for_process("mds_stores"), None);
    // Everything not templated falls through to the base default
    assert_eq!(merged.cpu.for_process("some-random-app"), Some(pct(30.0)));
}

#[test]
fn user_override_shadows_template_entry() {
    let mut file = AlertsConfig::default();
    file.cpu_overrides.insert("ghostty", ipct(60.0));
    file.cpu_overrides.insert("mds_stores", ipct(50.0));
    let merged = ActiveThresholds::from_config(&file);

    // User values win over same-name template entries (case-insensitive)
    assert_eq!(merged.cpu.for_process("Ghostty"), Some(pct(60.0)));
    assert_eq!(merged.cpu.for_process("mds_stores"), Some(pct(50.0)));
    // Untouched template entries stay active
    assert_eq!(merged.cpu.for_process("gopls"), Some(pct(100.0)));
}

#[test]
fn app_template_silences_terminal_sessions_and_raises_browsers() {
    let merged = ActiveThresholds::from_config(&AlertsConfig::default());
    // Terminal sessions group under a `login` root on macOS: a build
    // there is your own work, and its members still have per-process
    // rules, so the whole-app rules stay out of it
    assert_eq!(merged.app_cpu.for_process("login"), None);
    assert_eq!(merged.app_memory.for_process("login"), None);
    // Browsers get a raised bar, not an exemption
    assert_eq!(merged.app_cpu.for_process("Google Chrome"), Some(pct(400.0)));
    assert_eq!(merged.app_memory.for_process("Google Chrome"), Some(share(0.60)));
    // Anything untemplated falls through to the base values
    assert_eq!(merged.app_cpu.for_process("some-app"), Some(pct(200.0)));
    assert_eq!(merged.app_memory.for_process("some-app"), Some(share(0.40)));
}

#[test]
fn user_app_overrides_shadow_the_app_template() {
    let mut file = AlertsConfig::default();
    file.app_cpu_overrides.insert("login", ipct(800.0));
    file.app_mem_overrides.insert("Google Chrome", ipct(30.0));
    let merged = ActiveThresholds::from_config(&file);
    assert_eq!(merged.app_cpu.for_process("login"), Some(pct(800.0)));
    assert_eq!(merged.app_memory.for_process("Google Chrome"), Some(share(0.30)));

    // ... and the template layer goes away with the same switch that
    // controls the per-process one
    let off = AlertsConfig {
        template: Some(false),
        ..Default::default()
    };
    let merged = ActiveThresholds::from_config(&off);
    assert_eq!(merged.app_cpu.for_process("login"), Some(pct(200.0)));
    assert_eq!(merged.app_memory.for_process("Google Chrome"), Some(share(0.40)));
}

#[test]
fn disabling_a_base_rule_also_retires_its_template() {
    // `alert-cpu 0` means "no CPU alerts", so the ~60 templated apps
    // must not keep firing behind the user's back
    let file = AlertsConfig {
        cpu: Some(ipct(0.0)),
        app_cpu: Some(ipct(0.0)),
        app_mem: Some(ipct(0.0)),
        ..Default::default()
    };
    let merged = ActiveThresholds::from_config(&file);
    assert_eq!(merged.cpu.for_process("Google Chrome"), None);
    assert!(!merged.cpu.any_enabled());
    assert_eq!(merged.app_cpu.for_process("Google Chrome"), None);
    assert!(!merged.app_cpu.any_enabled());
    assert!(!merged.app_memory.any_enabled());

    // An explicit user override is a request, not a default: it
    // still applies over a disabled base
    let mut file = AlertsConfig {
        cpu: Some(ipct(0.0)),
        ..Default::default()
    };
    file.cpu_overrides.insert("ghostty", ipct(100.0));
    let merged = ActiveThresholds::from_config(&file);
    assert_eq!(merged.cpu.for_process("ghostty"), Some(pct(100.0)));
    assert_eq!(merged.cpu.for_process("Google Chrome"), None);
}

#[test]
fn template_can_be_disabled_entirely() {
    let file = AlertsConfig {
        template: Some(false),
        ..Default::default()
    };
    let merged = ActiveThresholds::from_config(&file);
    // Template names fall back to the base default like any other app
    assert_eq!(merged.cpu.for_process("Google Chrome"), Some(pct(30.0)));
    assert_eq!(merged.cpu.for_process("mds_stores"), Some(pct(30.0)));
}

#[test]
fn from_config_zero_disables() {
    let mut file = AlertsConfig {
        mem: Some(ipct(0.0)),
        ..Default::default()
    };
    file.cpu_overrides.insert("chrome", ipct(0.0));

    let merged = ActiveThresholds::from_config(&file);
    assert_eq!(merged.memory.for_process("any"), None);
    assert_eq!(merged.cpu.for_process("chrome"), None);
    assert_eq!(merged.cpu.for_process("other"), Some(pct(30.0)));
}
