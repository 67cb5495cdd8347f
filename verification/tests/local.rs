use zstats::collector::disks::{DiskCounters, RawDisk};
use zstats::collector::local::{
    LocalCollector, Plan, RawBattery, RawCpu, RawMemory, Readings, RoundPlan, SwapCounters,
};
use zstats::collector::networks::{NetCounters, RawNetwork};
use zstats::collector::processes::RawProcess;
use zstats::collector::registry::{DriveCounters, GpuSample};
use zstats::collector::sensors::RawSensor;
use zstats::config::CollectorConfig;
use zstats::snapshot::{BatterySnapshot, Capabilities, HostInfo, LoadSnapshot, SystemSnapshot};
use zstats::time::{Duration, Instant};

fn at(millis: u64) -> Instant {
    Instant {
        nanos: 1_000_000 * u128::from(millis),
    }
}

/// A process table: an app with a helper, and a daemon
fn table(cpu_time_ms: u64, io: u64) -> Vec<RawProcess> {
    let raw = |pid: u32, name: &str, parent: u32, memory: u64| RawProcess {
        pid,
        name: name.into(),
        exe: None,
        cmd: vec![name.into(), "--run".into()],
        cpu_time_ms: if pid == 11 { cpu_time_ms } else { 7 },
        start_time_secs: 100,
        memory_bytes: memory,
        footprint_bytes: None,
        virtual_memory_bytes: memory,
        run_time_secs: 1,
        parent_pid: Some(parent),
        user_id: None,
        status: "Run".into(),
        disk: DiskCounters {
            total_read_bytes: io,
            total_written_bytes: io,
        },
        read_bytes: io,
        written_bytes: io,
    };
    vec![
        raw(10, "app", 1, 100),
        raw(11, "helper", 10, 200),
        raw(20, "cron", 1, 50),
    ]
}

fn volume(name: &str, mount: &str, read: u64) -> RawDisk {
    RawDisk {
        name: name.into(),
        mount_point: mount.into(),
        file_system: "apfs".into(),
        kind: "SSD".into(),
        is_removable: false,
        total_bytes: 100,
        available_bytes: 40,
        counters: DiskCounters {
            total_read_bytes: read,
            total_written_bytes: read,
        },
    }
}

fn nic(name: &str, received: u64) -> RawNetwork {
    RawNetwork {
        interface: name.into(),
        counters: NetCounters {
            received_bytes: received,
            transmitted_bytes: received,
            received_packets: received,
            transmitted_packets: received,
            received_errors: 0,
            transmitted_errors: 0,
        },
    }
}

fn readings(step: u64) -> Readings {
    Readings {
        timestamp: i128::from(step),
        at: at(500 * step),
        host: HostInfo {
            hostname: "box".into(),
            os_name: "Linux".into(),
            os_version: "6".into(),
            kernel_version: None,
            arch: "x86_64".into(),
            uptime_secs: 1,
            labels: Vec::new(),
        },
        cpu: RawCpu {
            usage_percent: 50_000_000,
            per_core_usage: vec![40_000_000, 60_000_000],
            per_core_frequency_mhz: vec![2000, 2000],
            brands: vec!["M4".into(), "M4".into()],
            physical_cores: Some(2),
        },
        memory: RawMemory {
            total_bytes: 1000,
            used_bytes: 250,
            available_bytes: 750,
            swap_total_bytes: 0,
            swap_used_bytes: 0,
            compressed_bytes: None,
            pressure_level: None,
            swap: SwapCounters {
                ins: Some(100 * step),
                outs: Some(50 * step),
                thrashes: Some(step / 2),
            },
            kernel_available_percent: Some(40),
        },
        disks: vec![
            volume("disk0", "/System/Volumes/Data", 1000 * step),
            volume("disk0", "/", 1000 * step),
        ],
        networks: vec![nic("en0", 500 * step)],
        processes: table(1000 * step, 4000 * step),
        process_count: 3,
        sensors: vec![
            RawSensor {
                label: "die".into(),
                celsius: Some(40_000_000 + step as i64),
                max: None,
                critical: None,
            },
            RawSensor {
                label: "broken".into(),
                celsius: Some(-9_201_000_000),
                max: None,
                critical: None,
            },
        ],
        battery: RawBattery::Unreadable,
        gpus: Some(vec![GpuSample {
            name: "GPU".into(),
            cores: None,
            utilization_percent: 1_000_000 * step as i64,
            renderer_utilization_percent: None,
            tiler_utilization_percent: None,
            memory_in_use_bytes: None,
            memory_allocated_bytes: None,
        }]),
        drives: Some(vec![DriveCounters {
            name: "disk0".into(),
            model: None,
            size_bytes: None,
            is_removable: false,
            read_ops: 10 * step,
            write_ops: 0,
            read_bytes: 0,
            write_bytes: 0,
            read_time_ns: 0,
            write_time_ns: 0,
            read_errors: 0,
            write_errors: 0,
        }]),
        load: LoadSnapshot {
            load1: 0,
            load5: 0,
            load15: 0,
        },
        capabilities: Capabilities::current("linux"),
    }
}

/// One round at a time, in milliseconds
fn round(collector: &mut LocalCollector, millis: u64, step: u64) -> SystemSnapshot {
    let now = at(millis);
    let plan = RoundPlan {
        processes: collector.plan_processes(now, 50_000_000, 2),
        disks: collector.plan_disks(now).0,
        networks: collector.plan_networks(now),
        temperatures: collector.plan_temperatures(now),
        battery: collector.plan_battery(now, true),
        gpus: collector.plan_gpus(now),
        drives: collector.plan_drives(now),
    };
    collector.collect(plan, readings(step))
}

fn collector(config: CollectorConfig) -> LocalCollector {
    LocalCollector::new(config, Vec::new(), at(0))
}

#[test]
fn config_toggles_are_respected() {
    let config = CollectorConfig {
        collect_processes: false,
        per_core_cpu: false,
        collect_disks: false,
        collect_networks: false,
        collect_temperatures: false,
        ..CollectorConfig::default("linux")
    };
    let mut collector = collector(config);
    let snapshot = round(&mut collector, 1, 1);

    assert!(snapshot.processes.is_none());
    assert!(snapshot.cpu.per_core_usage.is_empty());
    assert!(snapshot.disks.is_none());
    assert!(snapshot.networks.is_none());
    assert!(snapshot.temperatures.is_none());
    // Groups and the total count require process collection even though
    // groups' own toggle defaults to on
    assert!(snapshot.process_groups.is_none());
    assert!(snapshot.total_processes.is_none());
}

#[test]
fn process_groups_aggregate_trees_and_respect_toggle_and_cache() {
    let max_processes = CollectorConfig::default("linux").max_processes;
    let mut first_collector = collector(CollectorConfig {
        // Freeze the process cadence after the first collect so the
        // second one must serve the cached groups
        process_refresh_interval: Duration::from_secs(3600),
        process_boost_cpu_cores: None,
        ..CollectorConfig::default("linux")
    });

    let first = round(&mut first_collector, 1, 1);
    let groups = first.process_groups.as_ref().expect("groups enabled");
    assert!(!groups.is_empty());
    assert!(groups.len() <= max_processes);
    for g in groups.iter() {
        assert!(g.process_count >= 1);
        assert!(!g.name.is_empty());
    }
    // Groups are ranked by CPU
    for pair in groups.windows(2) {
        assert!(pair[0].cpu_usage_percent >= pair[1].cpu_usage_percent);
    }
    assert!(groups.iter().any(|g| g.process_count > 1));
    // The whole-tree memory sum must be at least any single member's
    let processes = first.processes.as_ref().expect("processes enabled");
    let total_group_mem: u64 = groups.iter().map(|g| g.memory_bytes).sum();
    let max_proc_mem = processes.iter().map(|p| p.memory_bytes).max().unwrap_or(0);
    assert!(total_group_mem >= max_proc_mem);

    // Between process refreshes the cached list is served verbatim
    let second = round(&mut first_collector, 200, 2);
    let again = second.process_groups.as_ref().expect("groups");
    assert_eq!(format!("{groups:?}"), format!("{again:?}"));

    // Toggle off: everything else still on, groups absent
    let mut collector = collector(CollectorConfig {
        collect_process_groups: false,
        ..CollectorConfig::default("linux")
    });
    let snapshot = round(&mut collector, 1, 1);
    assert!(snapshot.processes.is_some());
    assert!(snapshot.process_groups.is_none());
}

#[test]
fn temperatures_refresh_interval_reuses_cache() {
    let config = CollectorConfig {
        collect_temperatures: true,
        // Effectively never re-refresh within this test
        temperature_refresh_interval: Duration::from_secs(3600),
        collect_processes: false,
        ..CollectorConfig::default("linux")
    };
    let mut collector = collector(config);
    let first = round(&mut collector, 1, 1);
    let second = round(&mut collector, 2, 2);

    let a = first.temperatures.expect("temps enabled");
    let b = second.temperatures.expect("temps enabled");
    // Same cached sample (labels + values bit-identical)
    assert_eq!(a.len(), b.len());
    for (x, y) in a.iter().zip(b.iter()) {
        assert_eq!(x.label, y.label);
        assert_eq!(x.celsius, y.celsius);
    }
    // Plausible filter: no absurd firmware placeholders
    for t in &a {
        let celsius = t.celsius as f64 / 1e6;
        assert!(
            (-20.0..=150.0).contains(&celsius),
            "implausible temp {} for {}",
            t.celsius,
            t.label
        );
    }
}

#[test]
fn disk_and_network_intervals_reuse_cached_lists() {
    let config = CollectorConfig {
        // Effectively never due again within this test
        disk_io_refresh_interval: Duration::from_secs(3600),
        network_refresh_interval: Duration::from_secs(3600),
        collect_processes: false,
        ..CollectorConfig::default("linux")
    };
    let mut collector = collector(config);

    let first = round(&mut collector, 1, 1);
    let second = round(&mut collector, 200, 2);

    // Between refreshes the cached lists are returned verbatim
    let (d1, d2) = (
        first.disks.as_ref().expect("disks"),
        second.disks.as_ref().expect("disks"),
    );
    assert_eq!(d1.len(), d2.len());
    for (a, b) in d1.iter().zip(d2.iter()) {
        assert_eq!(a.mount_point, b.mount_point);
        assert_eq!(a.available_bytes, b.available_bytes);
        assert_eq!(a.read_bytes_per_sec, b.read_bytes_per_sec);
        assert_eq!(a.write_bytes_per_sec, b.write_bytes_per_sec);
    }
    let (n1, n2) = (
        first.networks.as_ref().expect("networks"),
        second.networks.as_ref().expect("networks"),
    );
    assert_eq!(n1.len(), n2.len());
    for (a, b) in n1.iter().zip(n2.iter()) {
        assert_eq!(a.interface, b.interface);
        assert_eq!(a.received_bytes_per_sec, b.received_bytes_per_sec);
        assert_eq!(a.transmitted_bytes_per_sec, b.transmitted_bytes_per_sec);
    }
}

#[test]
fn process_refresh_interval_reuses_cached_list() {
    let config = CollectorConfig {
        // Effectively never due again within this test; the CPU boost must
        // be off too, or a busy machine would force a refresh
        process_refresh_interval: Duration::from_secs(3600),
        process_boost_cpu_cores: None,
        ..CollectorConfig::default("linux")
    };
    let mut collector = collector(config);

    let first = round(&mut collector, 1, 1);
    let second = round(&mut collector, 200, 2);

    let a = first.processes.expect("processes enabled");
    let b = second.processes.expect("processes enabled");
    assert_eq!(
        a.iter().map(|p| p.pid).collect::<Vec<_>>(),
        b.iter().map(|p| p.pid).collect::<Vec<_>>()
    );
    assert_eq!(
        a.iter().map(|p| p.cpu_usage_percent).collect::<Vec<_>>(),
        b.iter().map(|p| p.cpu_usage_percent).collect::<Vec<_>>()
    );
}

#[test]
fn process_disk_io_opt_in_and_disk_dedupe() {
    let config = CollectorConfig {
        collect_process_disk_io: true,
        dedupe_disks: true,
        ..CollectorConfig::default("linux")
    };
    let mut collector = collector(config);
    let _ = round(&mut collector, 0, 1);
    let second = round(&mut collector, 300, 2);

    let processes = second.processes.as_ref().expect("processes");
    // At least one process should have rate fields (Some after second sample)
    assert!(
        processes
            .iter()
            .any(|p| p.read_bytes_per_sec.is_some() && p.write_bytes_per_sec.is_some()),
        "process disk IO rates should be populated when enabled"
    );

    // Dedupe: no two disks should share the same device name
    if let Some(disks) = &second.disks {
        let mut names = std::collections::HashSet::new();
        for d in disks {
            assert!(
                names.insert(d.name.clone()),
                "duplicate disk name after dedupe: {}",
                d.name
            );
        }
        assert_eq!(disks.len(), 1);
    }
}

#[test]
fn rates_appear_from_the_second_round_on() {
    let mut collector = collector(CollectorConfig::default("linux"));
    let first = round(&mut collector, 0, 1);
    for disk in first.disks.as_ref().expect("disks enabled") {
        assert!(disk.read_bytes_per_sec.is_none());
        assert!(disk.write_bytes_per_sec.is_none());
        assert_eq!(disk.used_percent, 60_000_000);
    }
    assert_eq!(first.io_totals.disk_read_bytes_per_sec, None);

    let second = round(&mut collector, 500, 2);
    let disks = second.disks.as_ref().expect("disks enabled");
    assert_eq!(disks[0].read_bytes_per_sec, Some(2000));
    assert_eq!(second.io_totals.disk_read_bytes_per_sec, Some(2000));
    let networks = second.networks.as_ref().expect("networks enabled");
    assert_eq!(networks[0].received_bytes_per_sec, 1000);
    assert_eq!(networks[0].received_errors_per_sec, Some(0));
    let processes = second.processes.as_ref().expect("processes");
    // A thousand milliseconds of processor time in half a second
    assert_eq!(processes[0].pid, 11);
    assert_eq!(processes[0].cpu_usage_percent, 200_000_000);
    assert_eq!(processes[0].cmd, "helper --run");
    assert!(processes[0].read_bytes_per_sec.is_none(), "off by default");
    let groups = second.process_groups.as_ref().expect("groups");
    assert_eq!(groups[0].root_pid, 10);
    assert_eq!(groups[0].name, "app");
    assert_eq!(groups[0].memory_bytes, 300);
    assert_eq!(second.total_processes, Some(3));
    assert_eq!(second.memory.used_percent, 25_000_000);
    assert_eq!(second.cpu.logical_cores, 2);
    assert_eq!(second.cpu.brand.as_deref(), Some("M4"));
    assert_eq!(second.cpu.frequency_mhz, Some(2000));
}

#[test]
fn a_busy_machine_refreshes_its_processes_early() {
    let mut collector = collector(CollectorConfig {
        process_refresh_interval: Duration::from_secs(3600),
        process_boost_cpu_cores: Some(2_000_000),
        ..CollectorConfig::default("linux")
    });
    assert!(matches!(
        collector.plan_processes(at(1), 0, 4),
        Plan::Refresh(_)
    ));
    assert_eq!(collector.plan_processes(at(2), 25_000_000, 4), Plan::Reuse);
    assert_eq!(
        collector.plan_processes(at(5), 50_000_000, 4),
        Plan::Refresh(Some(Duration::from_millis(4)))
    );
}

#[test]
fn a_volume_that_appears_needs_its_capacity() {
    let mut collector = collector(CollectorConfig::default("linux"));
    assert!(!collector.needs_capacity("disk0", "/"), "nothing known yet");
    let _ = round(&mut collector, 0, 1);
    assert!(!collector.needs_capacity("disk0", "/"));
    assert!(collector.needs_capacity("disk1", "/Volumes/X"));
}

#[test]
fn the_battery_keeps_its_last_reading() {
    let reading = BatterySnapshot {
        state: "Charging".into(),
        charge_percent: 80_000_000,
        health_percent: None,
        cycle_count: None,
        temperature_celsius: None,
        power_watts: None,
        time_to_full_secs: None,
        time_to_empty_secs: None,
    };
    let mut collector = collector(CollectorConfig::default("linux"));
    let plan = collector.plan_battery(at(0), true);
    assert!(matches!(plan, Plan::Refresh(_)));
    let seen = collector.collect_battery(plan, RawBattery::Read(Some(reading)));
    assert_eq!(seen.expect("read").charge_percent, 80_000_000);
    let plan = collector.plan_battery(at(1), true);
    assert_eq!(plan, Plan::Reuse);
    let seen = collector.collect_battery(plan, RawBattery::Unreadable);
    assert_eq!(seen.expect("kept").charge_percent, 80_000_000);
}

#[test]
fn capabilities_follow_the_system() {
    let mac = Capabilities::current("macos");
    assert!(mac.memory_pressure && mac.gpu && mac.drive_io);
    let linux = Capabilities::current("linux");
    assert!(!linux.memory_pressure && !linux.gpu);
    assert!(linux.memory_footprint);
}

#[test]
fn the_compressor_has_rates_from_the_second_round_on() {
    let mut collector = collector(CollectorConfig::default("linux"));
    let first = round(&mut collector, 500, 1);
    assert_eq!(first.memory.swap_ins_per_sec, None);
    assert_eq!(first.memory.swap_thrashing, None);
    assert_eq!(first.memory.kernel_available_percent, Some(40));
    let second = round(&mut collector, 1000, 2);
    assert_eq!(second.memory.swap_ins_per_sec, Some(200));
    assert_eq!(second.memory.swap_outs_per_sec, Some(100));
    assert_eq!(second.memory.swap_thrashing, Some(true));
    let third = round(&mut collector, 1500, 3);
    assert_eq!(third.memory.swap_thrashing, Some(false));
}

#[test]
fn devices_are_read_on_their_own_cadence() {
    let mut collector = collector(CollectorConfig::default("linux"));
    let first = round(&mut collector, 0, 1);
    assert_eq!(first.gpus.as_ref().expect("gpus")[0].utilization_percent, 1_000_000);
    assert_eq!(first.drives.as_ref().expect("drives")[0].read_ops_per_sec, None);
    let second = round(&mut collector, 9_999, 2);
    assert_eq!(second.gpus.as_ref().expect("kept")[0].utilization_percent, 1_000_000);
    let third = round(&mut collector, 10_000, 3);
    assert_eq!(third.gpus.as_ref().expect("read")[0].utilization_percent, 3_000_000);
    assert_eq!(third.drives.as_ref().expect("read")[0].read_ops_per_sec, Some(2));
    assert_eq!(third.io_totals.disk_read_ops_per_sec, Some(2));
    // A failed reading shows nothing, and leaves nothing to compare with
    let plan = collector.plan_drives(at(20_000));
    assert!(collector.collect_drives(plan, None).is_none());
    let plan = collector.plan_gpus(at(20_000));
    assert!(collector.collect_gpus(plan, &None).is_none());
    let fourth = round(&mut collector, 30_000, 4);
    assert_eq!(fourth.drives.as_ref().expect("read")[0].read_ops_per_sec, None);
    collector.set_collect_gpu(false);
    collector.set_collect_drives(false);
    let off = round(&mut collector, 60_000, 5);
    assert!(off.gpus.is_none());
    assert!(off.drives.is_none());
}

#[test]
fn volumes_have_rates_from_the_second_reading_on() {
    let mut c = collector(CollectorConfig {
        disk_io_refresh_interval: Duration::from_secs(2),
        dedupe_disks: false,
        ..CollectorConfig::default("linux")
    });
    let mut shown = |millis: u64, raws: Vec<RawDisk>| {
        let (plan, _) = c.plan_disks(at(millis));
        let list = c.collect_disks(plan, &raws).expect("collected");
        list.iter()
            .map(|d| (d.mount_point.clone(), d.read_bytes_per_sec, d.write_bytes_per_sec))
            .collect::<Vec<_>>()
    };
    let first = shown(1_000, vec![volume("a", "/", 100)]);
    assert_eq!(first, vec![("/".to_string(), None, None)]);
    // Not due: the list before, whatever the system tells
    assert_eq!(shown(2_000, vec![volume("b", "/b", 500)]), first);
    // Due: over the time since the reading, and nothing for a new volume
    let second = shown(5_000, vec![volume("a", "/", 500), volume("a", "/new", 900)]);
    assert_eq!(
        second,
        vec![
            ("/".to_string(), Some(100), Some(100)),
            ("/new".to_string(), None, None),
        ]
    );
    // A volume that was gone starts anew
    assert_eq!(shown(7_000, Vec::new()), Vec::new());
    assert_eq!(
        shown(9_000, vec![volume("a", "/", 900)]),
        vec![("/".to_string(), None, None)]
    );
}

#[test]
fn a_snapshot_starts_without_extras() {
    let mut c = collector(CollectorConfig::default("linux"));
    assert!(round(&mut c, 1, 1).extras.is_empty());
}
