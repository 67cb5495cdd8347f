use std::collections::HashMap;

use zstats::alerts::active::ActiveThresholds;
use zstats::alerts::consumers::top_consumers;
use zstats::alerts::engine::AlertEngine;
use zstats::alerts::episode::{EpisodeState, Notify};
use zstats::alerts::event::{window_label, AlertDetail, AlertKind, AlertSubject};
use zstats::alerts::matcher::Matcher;
use zstats::alerts::template::{Template, TEMPLATE_VERSION};
use zstats::alerts::thresholds::Thresholds;
use zstats::monitor::Monitor;
use zstats::overrides::NameMap;
use zstats::rolling::ProcessStats;
use zstats::settings::{apply_add, AlertsConfig, FileConfig};
use zstats::snapshot::{
    Capabilities, CpuSnapshot, HostInfo, LoadSnapshot, MemorySnapshot, ProcessSnapshot,
    SystemSnapshot,
};
use zstats::time::{Duration, Instant};

const GIB: u64 = 1 << 30;

fn pct(percent: f64) -> u64 {
    (percent * 1e6).round() as u64
}

fn at(secs: u64) -> Instant {
    Instant {
        nanos: 1_000_000_000 * u128::from(secs),
    }
}

fn proc(pid: u32, name: &str, cpu: f64, mem: u64) -> ProcessSnapshot {
    ProcessSnapshot {
        pid,
        name: name.into(),
        display_name: None,
        cmd: String::new(),
        cpu_usage_percent: pct(cpu),
        cpu_time_ms: 0,
        memory_bytes: mem,
        phys_footprint_bytes: None,
        virtual_memory_bytes: mem,
        run_time_secs: 0,
        parent_pid: None,
        user_id: None,
        status: "Runnable".into(),
        read_bytes_per_sec: None,
        write_bytes_per_sec: None,
    }
}

fn snapshot(processes: Vec<ProcessSnapshot>, total_memory: u64) -> SystemSnapshot {
    SystemSnapshot {
        timestamp: 0,
        host: HostInfo {
            hostname: String::new(),
            os_name: String::new(),
            os_version: String::new(),
            kernel_version: None,
            arch: String::new(),
            uptime_secs: 0,
            labels: Vec::new(),
        },
        cpu: CpuSnapshot {
            usage_percent: 0,
            per_core_usage: Vec::new(),
            logical_cores: 0,
            physical_cores: None,
            frequency_mhz: None,
            per_core_frequency_mhz: Vec::new(),
            brand: None,
            perf_levels: None,
        },
        memory: MemorySnapshot {
            total_bytes: total_memory,
            used_bytes: 0,
            available_bytes: 0,
            swap_total_bytes: 0,
            swap_used_bytes: 0,
            used_percent: 0,
            swap_used_percent: 0,
            compressed_bytes: None,
            pressure_level: None,
            swap_ins_per_sec: None,
            swap_outs_per_sec: None,
            swap_thrashing: None,
            kernel_available_percent: None,
        },
        disks: None,
        networks: None,
        processes: Some(processes),
        process_groups: None,
        total_processes: None,
        battery: None,
        gpus: None,
        drives: None,
        load: LoadSnapshot {
            load1: 0,
            load5: 0,
            load15: 0,
        },
        temperatures: None,
        io_totals: Default::default(),
        capabilities: Capabilities::current("macos"),
        extras: Vec::new(),
    }
}

#[test]
fn stars_at_the_ends_claim_a_family() {
    let family = Matcher::parse("rust-analyzer*").expect("valid");
    assert!(family.matches("Rust-Analyzer-proc-macro-srv"));
    assert!(!family.matches("my-rust-analyzer"));
    assert!(!family.is_exact());
    assert_eq!(family.literal_len(), 13);
    let tail = Matcher::parse("*Helper (Renderer)").expect("valid");
    assert!(tail.matches("Google Chrome Helper (Renderer)"));
    assert!(!tail.matches("Helper (Renderer) x"));
    let inside = Matcher::parse("*java*").expect("valid");
    assert!(inside.matches("OpenJAVA17"));
    let exact = Matcher::parse("node").expect("valid");
    assert!(exact.is_exact());
    assert!(exact.matches("NODE"));
    assert!(!exact.matches("node2"));
    assert_eq!(
        Matcher::parse("a*b").unwrap_err(),
        "a*b (a `*` may only start or end a name)"
    );
}

#[test]
fn the_user_decides_before_the_template_and_names_before_families() {
    let t: Thresholds<u64> = Thresholds::new(Some(1))
        .with_override("chrome*".to_string(), Some(2))
        .with_override("*".to_string(), Some(3))
        .with_template("chrome helper".to_string(), Some(4))
        .with_template("node".to_string(), None);
    // The longer literal decides among families
    assert_eq!(t.for_process("Chrome Helper"), Some(2));
    assert_eq!(t.for_process("node"), Some(3));
    let t: Thresholds<u64> = Thresholds::new(Some(1))
        .with_override("nod*".to_string(), Some(2))
        .with_override("node".to_string(), Some(5))
        .with_template("java".to_string(), None);
    assert_eq!(t.for_process("node"), Some(5));
    assert_eq!(t.for_process("java"), None);
    assert!(t.has_own_value("java"));
    assert_eq!(t.for_process("zsh"), Some(1));
    assert!(!t.has_own_value("zsh"));
    assert_eq!(t.base(), Some(1));
    assert!(t.any_enabled());
    let off: Thresholds<u64> = Thresholds::new(None).with_override("a".to_string(), None);
    assert!(!off.any_enabled());
}

#[test]
fn a_template_is_of_the_known_version_with_valid_keys() {
    let mut t = Template::builtin();
    assert_eq!(t.version, TEMPLATE_VERSION);
    assert!(t.cpu.len() > 40);
    assert!(Template::checked(t.clone()).is_ok());
    t.version = 99;
    assert_eq!(
        Template::checked(t.clone()).unwrap_err(),
        "unsupported template version 99"
    );
    t.version = TEMPLATE_VERSION;
    t.app_mem.insert("a*b", 1);
    assert_eq!(
        Template::checked(t).unwrap_err(),
        "a*b (a `*` may only start or end a name)"
    );
}

#[test]
fn a_template_of_the_user_replaces_the_builtin_one() {
    let mut cpu = NameMap::new();
    cpu.insert("gopls*", 42_000_000);
    let template = Template {
        version: 1,
        cpu,
        mem: NameMap::new(),
        app_cpu: NameMap::new(),
        app_mem: NameMap::new(),
    };
    let active =
        ActiveThresholds::from_config_with_template(&AlertsConfig::default(), &template);
    assert_eq!(active.cpu.for_process("gopls-1"), Some(42_000_000));
    assert_eq!(active.cpu.for_process("rustc"), active.cpu.base());
}

#[test]
fn pressure_counts_only_where_it_is_reported() {
    let mut file = AlertsConfig::default();
    file.cpu = Some(0);
    file.mem = Some(0);
    file.disk = Some(0);
    file.app_cpu = Some(0);
    file.app_mem = Some(0);
    let active = ActiveThresholds::from_config(&file);
    assert!(active.any_enabled(Capabilities::current("macos")));
    assert!(!active.any_enabled(Capabilities::current("linux")));
    assert!(!active.any_enabled(Capabilities::current("windows")));
    assert!(ActiveThresholds::supports(
        AlertKind::Cpu,
        Capabilities::current("linux")
    ));
    assert!(!ActiveThresholds::supports(
        AlertKind::Pressure,
        Capabilities::current("linux")
    ));
}

/// The alerts of six minutes of one process, two seconds apart
fn memory_alerts(active: &ActiveThresholds, process: &ProcessSnapshot, total: u64) -> Vec<AlertDetail> {
    let mut engine = AlertEngine::new();
    let mut details = Vec::new();
    for i in 0..180 {
        let s = snapshot(vec![process.clone()], total);
        for event in engine.evaluate(at(2 * i), &s, active).events {
            details.push(event.detail);
        }
    }
    details
}

#[test]
fn an_absolute_ceiling_alerts_below_the_share() {
    let active = ActiveThresholds::from_config(&AlertsConfig::default());
    // 5 GiB is under 25% of 64 GiB but over the ceiling of 4 GiB
    let hog = proc(7, "hog", 0.0, 5 * GIB);
    let details = memory_alerts(&active, &hog, 64 * GIB);
    assert_eq!(details.len(), 1);
    match &details[0] {
        AlertDetail::Memory {
            avg_bytes,
            share_percent,
            threshold_bytes,
            threshold_percent,
            ..
        } => {
            assert_eq!(*avg_bytes, 5 * GIB);
            assert_eq!(*share_percent, 7_812_500);
            assert_eq!(*threshold_bytes, u128::from(4 * GIB));
            assert_eq!(*threshold_percent, 6_250_000);
        }
        other => panic!("{other:?}"),
    }
    // A value of its own replaces both halves
    let mut file = AlertsConfig::default();
    file.mem_overrides.insert("hog", 25_000_000);
    let own = ActiveThresholds::from_config(&file);
    assert!(memory_alerts(&own, &hog, 64 * GIB).is_empty());
    // Without a ceiling only the share counts
    let mut file = AlertsConfig::default();
    file.mem_bytes = Some(0);
    let share = ActiveThresholds::from_config(&file);
    assert!(memory_alerts(&share, &hog, 64 * GIB).is_empty());
}

#[test]
fn memory_rules_measure_the_footprint_where_there_is_one() {
    let active = ActiveThresholds::from_config(&AlertsConfig::default());
    let mut cached = proc(7, "cache", 0.0, 6 * GIB);
    cached.phys_footprint_bytes = Some(GIB);
    assert!(memory_alerts(&active, &cached, 64 * GIB).is_empty());
    let mut swapped = proc(7, "swapped", 0.0, GIB);
    swapped.phys_footprint_bytes = Some(6 * GIB);
    assert_eq!(memory_alerts(&active, &swapped, 64 * GIB).len(), 1);
}

#[test]
fn the_three_largest_holders_are_named() {
    let s = snapshot(
        vec![
            proc(1, "a", 0.0, 6),
            proc(2, "b", 0.0, 30),
            proc(3, "c", 0.0, 20),
            proc(4, "small", 0.0, 5),
            proc(5, "d", 0.0, 10),
        ],
        100,
    );
    let top = top_consumers(&s);
    assert_eq!(top.first.expect("b").name, "b");
    assert_eq!(top.second.expect("c").share_percent, pct(20.0));
    assert_eq!(top.third.expect("d").pid, 5);
    let few = top_consumers(&snapshot(vec![proc(1, "a", 0.0, 5)], 100));
    assert!(few.first.is_none());
}

#[test]
fn an_episode_alerts_once_and_is_followed_up_once() {
    let mut episodes = EpisodeState::new();
    let key = (7, AlertKind::Cpu);
    let cooldown = Duration::from_secs(600);
    assert_eq!(episodes.notify(key, at(0), cooldown), Some(Notify::New));
    assert_eq!(episodes.notify(key, at(1799), cooldown), None);
    let reminder = episodes.notify(key, at(1800), cooldown).expect("reminder");
    assert_eq!(reminder.elapsed(), Some(Duration::from_secs(1800)));
    assert_eq!(episodes.notify(key, at(9000), cooldown), None);
    // Another rule or process is another episode
    assert_eq!(
        episodes.notify((7, AlertKind::Memory), at(9000), cooldown),
        Some(Notify::New)
    );
    episodes.clear(key);
    assert_eq!(episodes.notify(key, at(9001), cooldown), Some(Notify::New));
    episodes.clear(key);
    assert_eq!(episodes.notify(key, at(9100), cooldown), None, "cooldown");
    // A process that is gone is forgotten
    let alive: HashMap<u32, ProcessStats> = HashMap::new();
    episodes.retain(false, &alive);
    assert_eq!(episodes.notify(key, at(9200), cooldown), Some(Notify::New));
}

#[test]
fn windows_have_names() {
    assert_eq!(window_label(Duration::from_secs(60)), "the last minute");
    assert_eq!(window_label(Duration::from_secs(300)), "the last 5 minutes");
}

#[test]
fn settings_reload_keeps_engine_state() {
    let template = Template::builtin();
    let mut config = FileConfig::default();
    apply_add(&mut config, "alert-mem", "1", "linux").expect("valid");
    let mut monitor = Monitor::with_settings("/d", config, &template);
    assert_eq!(monitor.config_dir(), "/d");
    assert!(monitor.alerts_enabled(Capabilities::current("linux")));
    assert_eq!(monitor.settings().alerts.mem, Some(1_000_000));
    let mut fired = 0;
    for i in 0..200u64 {
        if i == 120 {
            let mut config = FileConfig::default();
            apply_add(&mut config, "alert-mem", "2", "linux").expect("valid");
            monitor.reload_settings(config, &template);
        }
        let tick = monitor.tick(at(2 * i), &snapshot(vec![proc(1, "p", 0.0, 10)], 100));
        fired += tick.alerts.len();
        assert_eq!(tick.process_stats[&1].memory_avg_bytes, 10);
    }
    assert_eq!(fired, 1, "the filled window survives the reload");
}

#[test]
fn ticks_produce_smoothed_stats() {
    let mut monitor = Monitor::with_settings("/d", FileConfig::default(), &Template::builtin());
    let first = monitor.tick(at(0), &snapshot(vec![proc(1, "p", 10.0, 10)], 100));
    assert_eq!(first.process_stats[&1].samples, 1);
    let second = monitor.tick(at(2), &snapshot(vec![proc(1, "p", 20.0, 30)], 100));
    assert_eq!(second.process_stats[&1].samples, 2);
    assert_eq!(second.process_stats[&1].cpu_avg, pct(15.0));
    let mut none = snapshot(Vec::new(), 100);
    none.processes = None;
    assert!(monitor.tick(at(4), &none).process_stats.is_empty());
}

fn under_pressure(level: u32) -> SystemSnapshot {
    let mut s = snapshot(Vec::new(), 100);
    s.memory.pressure_level = Some(level);
    s
}

#[test]
fn reminders_of_pressure_back_off() {
    let mut engine = AlertEngine::new();
    let active = ActiveThresholds::from_config(&AlertsConfig::default());
    let minute = 60;
    let mut told: Vec<(u64, Option<u64>)> = Vec::new();
    for i in 0..24 * 60u64 {
        for event in engine
            .evaluate(at(i * minute), &under_pressure(2), &active)
            .events
        {
            let after = event.repeat_after.map(|d| d.as_secs() as u64 / 60);
            told.push((i, after));
        }
    }
    assert_eq!(
        told,
        vec![
            (5, None),
            (35, Some(30)),
            (95, Some(90)),
            (215, Some(210)),
            (455, Some(450)),
            (695, Some(690)),
            (935, Some(930)),
            (1175, Some(1170)),
            (1415, Some(1410)),
        ]
    );
    let reminder = engine.evaluate(at(1655 * minute), &under_pressure(2), &active);
    let summary = reminder.events[0].summary();
    assert!(
        summary.ends_with("— still going after 1650 min"),
        "got: {summary}"
    );
    // A normal level ends it
    assert!(engine
        .evaluate(at(1656 * minute), &under_pressure(1), &active)
        .events
        .is_empty());
    assert!(engine
        .evaluate(at(2000 * minute), &under_pressure(2), &active)
        .events
        .is_empty());
}

#[test]
fn an_alert_tells_the_display_name() {
    let mut shown = proc(7, "Electron", 150.0, 0);
    shown.display_name = Some("CodeBuddy CN".to_string());
    let active = ActiveThresholds::from_config(&AlertsConfig::default());
    let mut engine = AlertEngine::new();
    let mut subjects = Vec::new();
    for i in 0..40 {
        let s = snapshot(vec![shown.clone()], 100);
        for event in engine.evaluate(at(2 * i), &s, &active).events {
            assert!(event.summary().starts_with("CodeBuddy CN (pid 7) runaway:"));
            subjects.push(event.subject);
        }
    }
    assert_eq!(
        subjects,
        vec![AlertSubject::Process {
            pid: 7,
            name: "Electron".to_string(),
            display_name: Some("CodeBuddy CN".to_string()),
        }]
    );
    let app = AlertSubject::App {
        root_pid: 3,
        name: "Electron".to_string(),
        display_name: None,
        process_count: 22,
    };
    assert_eq!(app.label(), "Electron (22 processes)");
}

#[test]
fn a_user_value_goes_before_the_template_and_the_template_before_the_base() {
    let mut file = AlertsConfig::default();
    file.cpu_overrides.insert("RustC", 70_000_000);
    file.cpu_overrides.insert("sleepy", 0);
    let active = ActiveThresholds::from_config(&file);
    assert_eq!(active.cpu.for_process("rustc"), Some(70_000_000));
    assert_eq!(active.cpu.for_process("sleepy"), None);
    assert_eq!(active.cpu.for_process("CARGO"), None);
    assert_eq!(active.cpu.for_process("xcode"), Some(200_000_000));
    assert_eq!(active.cpu.for_process("unheard-of"), Some(30_000_000));
    file.template = Some(false);
    let bare = ActiveThresholds::from_config(&file);
    assert_eq!(bare.cpu.for_process("xcode"), Some(30_000_000));
    assert_eq!(bare.cpu.for_process("rustc"), Some(70_000_000));
}

/// The processor alerts of one process, with the second of each
fn processor_alerts(cpu: fn(u64) -> Option<f64>, secs: u64) -> Vec<(u64, AlertDetail)> {
    let mut file = AlertsConfig::default();
    file.cpu = Some(pct(50.0) as i64);
    let active = ActiveThresholds::from_config(&file);
    let mut engine = AlertEngine::new();
    let mut alerts = Vec::new();
    for second in (0..=secs).step_by(2) {
        let processes = cpu(second).map(|c| proc(9, "busy", c, 0)).into_iter().collect();
        for event in engine.evaluate(at(second), &snapshot(processes, 0), &active).events {
            alerts.push((second, event.detail));
        }
    }
    alerts
}

#[test]
fn a_runaway_alerts_over_a_minute_and_a_busy_process_over_five() {
    let runaway = processor_alerts(|_| Some(160.0), 400);
    assert_eq!(
        runaway,
        vec![(
            50,
            AlertDetail::Cpu {
                avg_percent: 160_000_000,
                threshold_percent: 150_000_000,
                window: Duration::from_secs(60),
                runaway: true,
            }
        )]
    );
    let busy = processor_alerts(|_| Some(60.0), 400);
    assert_eq!(
        busy,
        vec![(
            250,
            AlertDetail::Cpu {
                avg_percent: 60_000_000,
                threshold_percent: 50_000_000,
                window: Duration::from_secs(300),
                runaway: false,
            }
        )]
    );
    assert!(processor_alerts(|_| Some(49.0), 400).is_empty());
}

#[test]
fn an_absence_starts_the_samples_anew() {
    let broken = processor_alerts(|s| if s == 40 { None } else { Some(160.0) }, 120);
    assert_eq!(broken.len(), 1);
    // Fifty seconds after it came back, not after it was first seen
    assert_eq!(broken[0].0, 92);
}

#[test]
fn a_due_round_records_in_the_order_of_the_list() {
    let mut file = AlertsConfig::default();
    file.cpu = Some(pct(50.0) as i64);
    file.mem = Some(pct(25.0) as i64);
    file.mem_bytes = Some(4 * GIB);
    file.cpu_overrides.insert("quiet", 0);
    file.cpu_overrides.insert("idle", 1);
    let active = ActiveThresholds::from_config(&file);
    let mut engine = AlertEngine::new();
    for second in (0..=60u64).step_by(2) {
        let mut processes = vec![
            // Below the base; its own threshold plays no part
            proc(1, "idle", 1.0, GIB),
            // Over the base; its own threshold plays no part
            proc(2, "quiet", 60.0, GIB),
            // Over the ceiling in bytes, below the share
            proc(3, "hog", 0.0, 5 * GIB),
        ];
        // Six spend processor time, of which five are kept
        for k in 0..6 {
            let mut p = proc(10 + k, "spender", 0.0, GIB);
            p.cpu_time_ms = 1_000 + u64::from(k + 1) * second;
            processes.push(p);
        }
        let records = engine
            .evaluate(at(second), &snapshot(processes, 64 * GIB), &active)
            .records;
        let pids: Vec<u32> = records.iter().map(|r| r.pid).collect();
        if second == 60 {
            assert_eq!(pids, vec![2, 3, 11, 12, 13, 14, 15]);
            // The counter since the process began
            assert_eq!(records[6].cpu_time_ms, 1_360);
        } else {
            assert!(pids.is_empty(), "{second}");
        }
    }
}
