use std::collections::HashMap;

use zstats::collector::bundle::app_bundle_name;
use zstats::collector::cpu::{
    detect_perf_levels, memory_pressure, percent_between, process_boost_active, ratio_percent,
    split_perf_levels, CpuTimeBaseline,
};
use zstats::collector::disks::{dedupe_disks_by_name, disk_key, is_new_mount, DiskCounters};
use zstats::collector::drives::build_drives;
use zstats::collector::groups::{aggregate_process_groups, GroupTotals, ProcNode};
use zstats::collector::registry::DriveCounters;
use zstats::collector::select::{select_top_pids, ProcKey};
use zstats::collector::sensors::{build_temperatures, is_plausible_celsius, RawSensor};
use zstats::collector::status::parse_proc_status_footprint;
use zstats::collector::totals::{io_totals_from, sum_optional_rates};
use zstats::overrides::NameMap;
use zstats::snapshot::{DiskSnapshot, DriveSnapshot, NetworkSnapshot};
use zstats::time::Duration;

/// Percents, cores or degrees in millionths
fn units(value: f64) -> u64 {
    (value * 1e6).round() as u64
}

fn key(pid: u32, cpu: f32, mem: u64) -> ProcKey {
    ProcKey {
        pid,
        cpu: units(cpu.into()),
        mem,
    }
}

fn node(parent: Option<u32>, cpu: f32, mem: u64) -> ProcNode {
    ProcNode {
        parent,
        // 0 = unknown, which never rejects a parent link: the grouping tests
        // are about topology, not pid reuse
        start_time_secs: 0,
        cpu: units(cpu.into()),
        mem,
        footprint: None,
        io: None,
    }
}

fn node_started_at(parent: Option<u32>, start_time_secs: u64) -> ProcNode {
    ProcNode {
        start_time_secs,
        ..node(parent, 0.0, 0)
    }
}

fn node_with_footprint(
    parent: Option<u32>,
    cpu: f32,
    mem: u64,
    footprint: Option<u64>,
) -> ProcNode {
    ProcNode {
        footprint,
        ..node(parent, cpu, mem)
    }
}

#[test]
fn groups_aggregate_whole_trees_to_launchd_children() {
    // launchd(1) → app(10) → helper(11) → grandchild(12)
    //           → other(20)
    // kernel-ish orphan(30) with a parent outside the table
    let table = vec![
        (1, node(None, 0.0, 10)),
        (10, node(Some(1), 1.0, 100)),
        (11, node(Some(10), 20.0, 200)),
        (12, node(Some(11), 30.0, 400)),
        (20, node(Some(1), 5.0, 50)),
        (30, node(Some(999), 2.0, 25)),
    ];

    let groups = aggregate_process_groups(&table, 50);
    let by_root: HashMap<u32, GroupTotals> = groups.iter().map(|g| (g.root_pid, *g)).collect();

    // The app tree sums root + every descendant
    let app = &by_root[&10];
    assert_eq!(app.process_count, 3);
    assert!((app.cpu as f64 / 1e6 - 51.0).abs() < 1e-6);
    assert_eq!(app.mem, 700);
    // Single-process trees are their own group
    assert_eq!(by_root[&20].process_count, 1);
    assert_eq!(by_root[&30].process_count, 1);
    assert_eq!(by_root[&1].process_count, 1);
    // Ranked by CPU: the app tree first
    assert_eq!(groups[0].root_pid, 10);
}

#[test]
fn groups_cap_at_max_and_survive_cycles() {
    // A ppid cycle (40 ↔ 41) must not hang; extra trees beyond `max`
    // are dropped lowest-CPU-first
    let table = vec![
        (10, node(Some(1), 30.0, 0)),
        (20, node(Some(1), 20.0, 0)),
        (30, node(Some(1), 10.0, 0)),
        (40, node(Some(41), 1.0, 0)),
        (41, node(Some(40), 1.0, 0)),
    ];

    let groups = aggregate_process_groups(&table, 2);
    assert_eq!(groups.len(), 2);
    assert_eq!(groups[0].root_pid, 10);
    assert_eq!(groups[1].root_pid, 20);
}

#[test]
fn a_cycle_is_one_group() {
    let table = vec![
        (40, node(Some(41), 1.0, 5)),
        (41, node(Some(40), 1.0, 6)),
    ];
    let groups = aggregate_process_groups(&table, 9);
    assert_eq!(groups.len(), 1);
    assert_eq!(groups[0].process_count, 2);
    assert_eq!(groups[0].mem, 11);
}

#[test]
fn every_process_counts_in_one_group() {
    let table: Vec<(u32, ProcNode)> = (2..40u32)
        .map(|pid| (pid, node(Some(pid / 3), 1.0, 1)))
        .collect();
    let groups = aggregate_process_groups(&table, 1000);
    let counted: u32 = groups.iter().map(|g| g.process_count).sum();
    assert_eq!(counted as usize, table.len());
}

#[test]
fn group_io_is_summed_where_it_is_counted() {
    let mut a = node(Some(1), 1.0, 1);
    a.io = Some((10, 20));
    let mut b = node(Some(10), 1.0, 1);
    b.io = Some((5, 7));
    let groups = aggregate_process_groups(&vec![(10, a), (11, b), (20, node(Some(1), 0.0, 1))], 9);
    assert_eq!(groups[0].read_bytes, Some(15));
    assert_eq!(groups[0].written_bytes, Some(27));
    assert_eq!(groups[1].read_bytes, None);
    assert_eq!(groups[1].written_bytes, None);
}

#[test]
fn perf_levels_read_from_the_tail_backwards() {
    // 8P + 4E on 12 cores: numbering is E-first, so Efficiency reads
    // cpu0-3 and Performance reads cpu4-11
    let levels = vec![
        ("Performance".to_string(), 8),
        ("Efficiency".to_string(), 4),
    ];
    let mut per_core = vec![units(100.0); 4]; // E cores pegged
    per_core.extend(vec![units(10.0); 8]); // P cores light

    let split = split_perf_levels(&per_core, &levels).expect("split");
    assert_eq!(split[0].name, "Performance");
    assert_eq!(split[0].logical_cores, 8);
    assert!((split[0].usage_percent as f64 / 1e6 - 10.0).abs() < 1e-4);
    assert_eq!(split[1].name, "Efficiency");
    assert_eq!(split[1].logical_cores, 4);
    assert!((split[1].usage_percent as f64 / 1e6 - 100.0).abs() < 1e-4);
}

#[test]
fn perf_levels_require_exact_topology_match() {
    let levels = vec![
        ("Performance".to_string(), 8),
        ("Efficiency".to_string(), 4),
    ];
    // Core count mismatch: stay honest and report nothing
    assert!(split_perf_levels(&vec![units(0.0); 10], &levels).is_none());
    // Fewer than two levels: not a heterogeneous CPU
    assert!(split_perf_levels(&vec![units(0.0); 8], &vec![("all".to_string(), 8)]).is_none());
    assert!(split_perf_levels(&Vec::new(), &Vec::new()).is_none());
}

#[test]
fn perf_levels_are_detected_only_when_complete() {
    let readings = vec![
        (Some(8), Some("Performance".to_string())),
        (Some(4), None),
    ];
    assert_eq!(
        detect_perf_levels(Some(2), &readings),
        vec![("Performance".to_string(), 8), ("level1".to_string(), 4)]
    );
    assert!(detect_perf_levels(None, &readings).is_empty());
    assert!(detect_perf_levels(Some(1), &readings).is_empty());
    assert!(detect_perf_levels(Some(3), &readings).is_empty());
    assert!(detect_perf_levels(Some(2), &vec![(Some(8), None), (Some(0), None)]).is_empty());
    assert!(detect_perf_levels(Some(2), &vec![(None, None), (Some(4), None)]).is_empty());
}

#[test]
fn memory_pressure_keeps_levels_that_fit() {
    assert_eq!(memory_pressure(Some(7), Some(2)), (Some(7), Some(2)));
    assert_eq!(memory_pressure(None, Some(1 << 40)), (None, None));
    assert_eq!(memory_pressure(Some(1), None), (Some(1), None));
}

#[test]
fn reparented_orphan_becomes_its_own_root() {
    // A helper whose parent died gets reparented to launchd: it must
    // not merge into an unrelated tree
    let table = vec![(10, node(Some(1), 5.0, 0)), (50, node(Some(1), 3.0, 0))];
    let groups = aggregate_process_groups(&table, 50);
    assert_eq!(groups.len(), 2);
}

/// A reading in millionths of a degree; one that is no number is absent
fn celsius(t: f32) -> Option<i64> {
    if t.is_finite() {
        Some((f64::from(t) * 1e6).round() as i64)
    } else {
        None
    }
}

#[test]
fn plausible_celsius_filters_garbage() {
    assert!(is_plausible_celsius(celsius(42.0)));
    assert!(is_plausible_celsius(celsius(0.0)));
    assert!(is_plausible_celsius(celsius(99.5)));
    assert!(!is_plausible_celsius(celsius(f32::NAN)));
    assert!(!is_plausible_celsius(celsius(f32::INFINITY)));
    assert!(!is_plausible_celsius(celsius(-9201.0)));
    assert!(!is_plausible_celsius(celsius(200.0)));
    assert!(!is_plausible_celsius(celsius(-50.0)));
}

#[test]
fn sensors_come_hottest_first_without_the_garbage() {
    let sensor = |label: &str, t: f32, max: f32| RawSensor {
        label: label.into(),
        celsius: celsius(t),
        max: celsius(max),
        critical: None,
    };
    let sorted = build_temperatures(&vec![
        sensor("a", 40.0, 60.0),
        sensor("broken", -9200.0, 1.0),
        sensor("b", 80.0, 999.0),
        sensor("c", 80.0, 90.0),
    ]);
    let labels: Vec<&str> = sorted.iter().map(|s| s.label.as_str()).collect();
    assert_eq!(labels, vec!["b", "c", "a"]);
    assert_eq!(sorted[0].max_celsius, None);
    assert_eq!(sorted[1].max_celsius, celsius(90.0));
}

#[test]
fn boost_uses_core_units_not_raw_percent() {
    let active = |threshold: Option<f32>, usage: f64, cores: u32| {
        process_boost_active(threshold.map(|t| units(t.into())), units(usage), cores)
    };
    // 1.0 core busy: 25% overall on 4 cores, ~1.56% on 64 cores
    assert!(active(Some(1.0), 25.0, 4));
    assert!(active(Some(1.0), 100.0 / 64.0, 64)); // exactly 1 core
    assert!(!active(Some(1.0), 10.0, 4));
    // 15% overall is only ~0.6 cores on 4U, but ~9.6 cores on 64U
    assert!(!active(Some(1.0), 15.0, 4));
    assert!(active(Some(1.0), 15.0, 64));
    assert!(active(Some(2.0), 50.0, 4));
    assert!(!active(Some(2.0), 40.0, 4));
    assert!(!active(None, 99.0, 64));
    assert!(!active(Some(1.0), 100.0, 0));
    assert!(!active(Some(0.0), 100.0, 8));
}

#[test]
fn memory_hogs_survive_cpu_heavy_selection() {
    // 10 CPU-active processes + 1 idle memory hog, budget 4
    let mut keys: Vec<_> = (0..10).map(|i| key(i, 10.0 + i as f32, 100)).collect();
    keys.push(key(99, 0.0, 1_000_000));

    let selected = select_top_pids(keys, 4);
    assert_eq!(selected.len(), 4);
    assert!(
        selected.contains(&99),
        "idle memory hog must survive selection"
    );
    // Result stays CPU-sorted: first selected has highest cpu among kept
    // (we only have pids; re-derive via known inputs)
    assert_eq!(selected[0], 9); // cpu 19.0
}

#[test]
fn under_budget_keeps_all_sorted_by_cpu() {
    let keys = vec![key(1, 1.0, 10), key(2, 5.0, 10), key(3, 3.0, 10)];
    let selected = select_top_pids(keys, 50);
    assert_eq!(selected, vec![2, 3, 1]);
}

#[test]
fn equal_processes_rank_by_memory_then_pid() {
    let keys = vec![key(7, 1.0, 10), key(3, 1.0, 10), key(9, 1.0, 20)];
    assert_eq!(select_top_pids(keys, 3), vec![9, 3, 7]);
    assert!(select_top_pids(vec![key(1, 1.0, 1)], 0).is_empty());
}

#[test]
fn dedupe_keeps_shortest_mount() {
    let disks = vec![
        DiskSnapshot {
            name: "disk0".into(),
            mount_point: "/System/Volumes/Data".into(),
            file_system: "apfs".into(),
            kind: "SSD".into(),
            is_removable: false,
            total_bytes: 100,
            available_bytes: 40,
            used_percent: units(60.0),
            read_bytes_per_sec: Some(1),
            write_bytes_per_sec: Some(2),
        },
        DiskSnapshot {
            name: "disk0".into(),
            mount_point: "/".into(),
            file_system: "apfs".into(),
            kind: "SSD".into(),
            is_removable: false,
            total_bytes: 100,
            available_bytes: 40,
            used_percent: units(60.0),
            read_bytes_per_sec: Some(3),
            write_bytes_per_sec: Some(4),
        },
        DiskSnapshot {
            name: "disk1".into(),
            mount_point: "/Volumes/X".into(),
            file_system: "exfat".into(),
            kind: "HDD".into(),
            is_removable: true,
            total_bytes: 50,
            available_bytes: 10,
            used_percent: units(80.0),
            read_bytes_per_sec: None,
            write_bytes_per_sec: None,
        },
    ];
    let out = dedupe_disks_by_name(&disks);
    assert_eq!(out.len(), 2);
    let d0 = out.iter().find(|d| d.name == "disk0").unwrap();
    assert_eq!(d0.mount_point, "/");
    assert_eq!(d0.read_bytes_per_sec, Some(3));
    assert!(out.iter().any(|d| d.name == "disk1"));
}

fn volume(name: &str, mount: &str) -> DiskSnapshot {
    DiskSnapshot {
        name: name.into(),
        mount_point: mount.into(),
        file_system: "ntfs".into(),
        kind: "SSD".into(),
        is_removable: false,
        total_bytes: 1,
        available_bytes: 1,
        used_percent: 0,
        read_bytes_per_sec: Some(10),
        write_bytes_per_sec: None,
    }
}

#[test]
fn volumes_without_a_name_are_never_collapsed() {
    let out = dedupe_disks_by_name(&vec![
        volume("", "D:\\"),
        volume("x", "/b"),
        volume("", "C:\\"),
        volume("x", "/a"),
    ]);
    let mounts: Vec<&str> = out.iter().map(|d| d.mount_point.as_str()).collect();
    assert_eq!(mounts, vec!["/b", "C:\\", "D:\\"]);
}

#[test]
fn only_a_volume_missing_from_a_known_mount_set_counts_as_new() {
    let counters = DiskCounters {
        total_read_bytes: 0,
        total_written_bytes: 0,
    };
    let mut known: NameMap<DiskCounters> = NameMap::new();
    known.insert("disk0:/", counters);

    assert!(is_new_mount("disk1:/Volumes/X", &known));
    assert!(!is_new_mount("disk0:/", &known));
    // A device already known under another mount point is still new here:
    // the second mount is a separate entry with its own capacity
    assert!(is_new_mount("disk0:/System/Volumes/Data", &known));
    // Before the first refresh there is no set to compare against, and the
    // constructor's enumeration already carried capacity
    assert!(!is_new_mount("disk0:/", &NameMap::new()));
    assert_eq!(disk_key("disk0", "/"), "disk0:/");
}

#[test]
fn a_parent_that_started_after_its_child_is_a_recycled_pid() {
    // pid 200 died; the number was handed to a process that started
    // later than the child still pointing at it. Without the check
    // the walk climbs into 200's tree and reports one merged app
    let table = vec![
        (200u32, node_started_at(None, 5_000)),
        (201u32, node_started_at(Some(200), 5_001)),
        // Stale ppid: this one predates its alleged parent
        (300u32, node_started_at(Some(200), 1_000)),
        (301u32, node_started_at(Some(300), 1_001)),
    ];
    let groups = aggregate_process_groups(&table, 10);
    let mut roots: Vec<u32> = groups.iter().map(|g| g.root_pid).collect();
    roots.sort_unstable();
    assert_eq!(roots, vec![200, 300], "two apps, not one");
    let counts: HashMap<u32, u32> = groups
        .iter()
        .map(|g| (g.root_pid, g.process_count))
        .collect();
    assert_eq!(counts[&200], 2);
    assert_eq!(counts[&300], 2);

    // An unknown start time on either side must not break grouping
    let table = vec![
        (200u32, node_started_at(None, 0)),
        (201u32, node_started_at(Some(200), 5_001)),
    ];
    let groups = aggregate_process_groups(&table, 10);
    assert_eq!(groups.len(), 1);
    assert_eq!(groups[0].process_count, 2);
}

#[test]
fn a_group_sums_member_footprints_and_falls_back_per_member() {
    // Root is pid 10 (a launchd child); INIT_PID itself is the
    // boundary, never a group
    let table = vec![
        (10u32, node_with_footprint(None, 0.0, 100, Some(500))),
        // Unreadable footprint: this member contributes its resident
        // size rather than nothing, so the total is never partial
        (11u32, node_with_footprint(Some(10), 0.0, 200, None)),
        (12u32, node_with_footprint(Some(10), 0.0, 300, Some(900))),
    ];
    let groups = aggregate_process_groups(&table, 10);
    assert_eq!(groups.len(), 1);
    assert_eq!(groups[0].mem, 600);
    assert!(groups[0].any_footprint);
    assert_eq!(groups[0].footprint_sum, 500 + 200 + 900);

    // No member had one (every platform but macOS): the caller
    // publishes None rather than a second copy of the resident sum
    let table = vec![
        (10u32, node(None, 0.0, 100)),
        (11u32, node(Some(10), 0.0, 200)),
    ];
    let groups = aggregate_process_groups(&table, 10);
    assert!(!groups[0].any_footprint);
    assert_eq!(groups[0].mem, 300);
}

#[test]
fn a_bundle_names_the_app_its_executable_does_not() {
    // The case this exists for: the stock Electron binary name is
    // shared by every app that shipped without renaming it
    assert_eq!(
        app_bundle_name(
            "/Applications/CodeBuddy CN.app/Contents/MacOS/Electron",
            "Electron"
        )
        .as_deref(),
        Some("CodeBuddy CN")
    );
    // Measured on a live machine: binaries that name a component
    // rather than the product
    assert_eq!(
        app_bundle_name(
            "/Applications/Shadowrocket.app/Contents/PlugIns/\
             MacPacketTunnel.appex/Contents/MacOS/MacPacketTunnel",
            "MacPacketTunnel"
        )
        .as_deref(),
        Some("Shadowrocket")
    );
}

#[test]
fn a_bundle_that_only_repeats_the_executable_name_is_not_a_display_name() {
    // Reported as None rather than as a copy, so a caller's
    // `display_name.unwrap_or(name)` never renders the same string
    // twice over and the field means "there is something to add"
    assert_eq!(
        app_bundle_name("/Applications/Cursor.app/Contents/MacOS/Cursor", "Cursor"),
        None
    );
    // Not in a bundle at all: every Linux and Windows path, and
    // most macOS daemons
    assert_eq!(
        app_bundle_name("/usr/sbin/mDNSResponder", "mDNSResponder"),
        None
    );
    assert_eq!(app_bundle_name("/opt/foo/bin/foo", "foo"), None);
}

#[test]
fn a_tool_shipped_inside_a_bundle_is_not_the_app() {
    assert_eq!(
        app_bundle_name(
            "/Applications/Xcode.app/Contents/Developer/usr/bin/make",
            "make"
        ),
        None
    );
    assert_eq!(
        app_bundle_name(
            "/Applications/Xcode.app/Contents/Developer/Toolchains/\
             XcodeDefault.xctoolchain/usr/bin/clang",
            "clang"
        ),
        None
    );
    // An app's bundled CLI, same shape
    assert_eq!(
        app_bundle_name(
            "/Applications/Docker.app/Contents/Resources/bin/docker",
            "docker"
        ),
        None
    );
    // The bundle's own executable still resolves: the rule is the
    // `Contents/MacOS` parent, not the depth
    assert_eq!(
        app_bundle_name("/Applications/Xcode.app/Contents/MacOS/Xcode", "Xcode"),
        None,
        "repeats the name, so adds nothing"
    );
    assert_eq!(
        app_bundle_name(
            "/Applications/Docker.app/Contents/MacOS/com.docker.backend",
            "com.docker.backend"
        )
        .as_deref(),
        Some("Docker")
    );
}

#[test]
fn a_nested_helper_bundle_resolves_to_itself_not_to_the_browser() {
    // Chromium nests helper bundles inside the browser's own. The
    // per-process template gives helpers and the main process
    // different bars on purpose, so resolving a renderer up to
    // "Google Chrome" would erase the distinction the rules run on:
    // the NEAREST bundle wins, and here it repeats the helper's own
    // name, i.e. adds nothing
    assert_eq!(
        app_bundle_name(
            "/Applications/Google Chrome.app/Contents/Frameworks/\
             Google Chrome Framework.framework/Versions/141.0.0.0/Helpers/\
             Google Chrome Helper (Renderer).app/Contents/MacOS/\
             Google Chrome Helper (Renderer)",
            "Google Chrome Helper (Renderer)"
        ),
        None
    );
}

#[test]
fn bundle_paths_are_read_by_their_components() {
    assert_eq!(
        app_bundle_name("/Apps//Foo.app/./Contents/MacOS/bar/", "bar").as_deref(),
        Some("Foo")
    );
    assert_eq!(
        app_bundle_name("/Foo.app/Contents/MacOS/../x", "x").as_deref(),
        Some("Foo")
    );
    assert_eq!(app_bundle_name("/.app/Contents/MacOS/x", "x"), None);
    assert_eq!(app_bundle_name("/Foo.app/Contents/macos/x", "x"), None);
    assert_eq!(app_bundle_name("", "x"), None);
}

#[test]
fn proc_status_footprint_is_anonymous_resident_plus_swap() {
    let status = "Name:\tcargo\nVmSize:\t 2445508 kB\nRssAnon:\t  102400 kB\n\
                  RssFile:\t   51200 kB\nVmSwap:\t    2048 kB\n";
    assert_eq!(
        parse_proc_status_footprint(status),
        Some((102_400 + 2_048) * 1024)
    );

    // Nothing swapped out is not the same as nothing readable
    let status = "RssAnon:\t  102400 kB\n";
    assert_eq!(parse_proc_status_footprint(status), Some(102_400 * 1024));

    // Kernel threads and pre-4.5 kernels have no RssAnon at all: no
    // answer, rather than an answer of zero
    assert_eq!(parse_proc_status_footprint("VmSwap:\t 2048 kB\n"), None);
    assert_eq!(parse_proc_status_footprint(""), None);
}

#[test]
fn proc_status_lines_may_end_in_a_carriage_return() {
    assert_eq!(
        parse_proc_status_footprint("RssAnon: 1 kB\r\nVmSwap: 2 kB\r\n"),
        Some(3 * 1024)
    );
    // Only before a newline
    assert_eq!(parse_proc_status_footprint("RssAnon: 1 kB\r"), None);
    assert_eq!(parse_proc_status_footprint("RssAnon: 1 kB"), Some(1024));
    assert_eq!(parse_proc_status_footprint("RssAnon: 1 kB\r\r\n"), None);
    assert_eq!(
        parse_proc_status_footprint("RssAnon: x kB\nRssAnon: 1 kB\n"),
        None
    );
    assert_eq!(
        parse_proc_status_footprint("RssAnon: 18446744073709551615 kB"),
        Some(u64::MAX)
    );
}

#[test]
fn ratio_percent_handles_zero_total() {
    assert!((ratio_percent(50, 100) as f64 / 1e6 - 50.0).abs() < f64::EPSILON);
    assert_eq!(ratio_percent(1, 0), units(0.0));
    assert_eq!(ratio_percent(0, 0), units(0.0));
}

fn cputime(cpu_time_ms: u64, start_time_secs: u64) -> CpuTimeBaseline {
    CpuTimeBaseline {
        cpu_time_ms,
        start_time_secs,
    }
}

#[test]
fn an_idle_process_reads_zero_not_its_last_busy_window() {
    let prev = cputime(28_140, 100);
    let current = cputime(28_140, 100);
    assert_eq!(
        percent_between(&prev, &current, Duration::from_secs(15)),
        units(0.0)
    );
}

#[test]
fn percent_is_time_delta_over_wall_clock() {
    // 3 busy seconds inside a 15-second window is 20% of one core.
    let rate = percent_between(
        &cputime(10_000, 100),
        &cputime(13_000, 100),
        Duration::from_secs(15),
    );
    assert!((rate as f64 / 1e6 - 20.0).abs() < 0.01, "got {rate}");
    // Threads sum: 30s of CPU in a 15s window is 200%, unclamped.
    let multi = percent_between(
        &cputime(0, 100),
        &cputime(30_000, 100),
        Duration::from_secs(15),
    );
    assert!((multi as f64 / 1e6 - 200.0).abs() < 0.01, "got {multi}");
}

#[test]
fn a_recycled_pid_starts_from_zero_not_from_the_dead_ones_baseline() {
    // Same pid, later start time: another program. Its first window
    // must not be diffed against the dead process's counter: that
    // would report either a wild spike or (backwards) nothing sane.
    let dead = cputime(500_000, 100);
    let reborn = cputime(2_000, 900);
    assert_eq!(
        percent_between(&dead, &reborn, Duration::from_secs(15)),
        units(0.0)
    );
    // A backwards counter alone is the same verdict even if the
    // start times happen to collide.
    let backwards = cputime(400, 100);
    assert_eq!(
        percent_between(&dead, &backwards, Duration::from_secs(15)),
        units(0.0)
    );
}

#[test]
fn a_sub_millisecond_window_makes_no_claim() {
    let rate = percent_between(
        &cputime(0, 100),
        &cputime(50, 100),
        Duration { nanos: 200 * 1_000 },
    );
    assert_eq!(rate, units(0.0), "no meaningful rate fits in 200µs");
}

#[test]
fn io_totals_sums_known_rates() {
    let disks = vec![
        DiskSnapshot {
            name: "a".into(),
            mount_point: "/".into(),
            file_system: "apfs".into(),
            kind: "SSD".into(),
            is_removable: false,
            total_bytes: 1,
            available_bytes: 0,
            used_percent: units(100.0),
            read_bytes_per_sec: Some(10),
            write_bytes_per_sec: Some(20),
        },
        DiskSnapshot {
            name: "b".into(),
            mount_point: "/data".into(),
            file_system: "apfs".into(),
            kind: "SSD".into(),
            is_removable: false,
            total_bytes: 1,
            available_bytes: 0,
            used_percent: units(100.0),
            read_bytes_per_sec: Some(5),
            write_bytes_per_sec: None,
        },
    ];
    let nets = vec![
        NetworkSnapshot {
            interface: "en0".into(),
            received_bytes_per_sec: 100,
            transmitted_bytes_per_sec: 50,
            received_packets_per_sec: None,
            transmitted_packets_per_sec: None,
            received_errors_per_sec: None,
            transmitted_errors_per_sec: None,
        },
        NetworkSnapshot {
            interface: "lo0".into(),
            received_bytes_per_sec: 3,
            transmitted_bytes_per_sec: 3,
            received_packets_per_sec: None,
            transmitted_packets_per_sec: None,
            received_errors_per_sec: None,
            transmitted_errors_per_sec: None,
        },
    ];
    let totals = io_totals_from(Some(&disks), Some(&nets), None);
    assert_eq!(totals.disk_read_bytes_per_sec, Some(15));
    assert_eq!(totals.disk_write_bytes_per_sec, Some(20));
    assert_eq!(totals.network_received_bytes_per_sec, Some(103));
    assert_eq!(totals.network_transmitted_bytes_per_sec, Some(53));
    assert!(io_totals_from(None, None, None)
        .disk_read_bytes_per_sec
        .is_none());
}

#[test]
fn a_total_needs_a_known_rate() {
    assert_eq!(sum_optional_rates(&vec![None, None]), None);
    assert_eq!(sum_optional_rates(&vec![None, Some(0)]), Some(0));
    assert_eq!(
        sum_optional_rates(&vec![Some(u64::MAX), Some(1)]),
        Some(u64::MAX)
    );
}

fn drive(name: &str, ops: u64, time_ns: u64) -> DriveCounters {
    DriveCounters {
        name: name.into(),
        model: None,
        size_bytes: None,
        is_removable: false,
        read_ops: ops,
        write_ops: 0,
        read_bytes: ops * 4096,
        write_bytes: 0,
        read_time_ns: time_ns,
        write_time_ns: 0,
        read_errors: 1,
        write_errors: 2,
    }
}

#[test]
fn drives_have_rates_from_the_second_sample_on() {
    let first = build_drives(&Vec::new(), &vec![drive("disk0", 100, 0)], None);
    assert_eq!(first[0].read_ops_per_sec, None);
    assert_eq!(first[0].read_errors, 1);

    let second = build_drives(
        &vec![drive("disk0", 100, 0)],
        &vec![drive("disk0", 300, 1_000_000_000)],
        Some(Duration::from_secs(2)),
    );
    assert_eq!(second[0].read_ops_per_sec, Some(100));
    assert_eq!(second[0].read_bytes_per_sec, Some(409_600));
    // A second over two hundred operations is five milliseconds each
    assert_eq!(second[0].read_latency_ms, Some(units(5.0)));
    assert_eq!(second[0].write_latency_ms, None, "no writes, no claim");
    assert_eq!(second[0].queue_depth, Some(units(0.5)));

    let back = build_drives(
        &vec![drive("disk0", 300, 5)],
        &vec![drive("disk0", 100, 9)],
        Some(Duration::from_secs(2)),
    );
    assert_eq!(back[0].read_ops_per_sec, None);
    assert_eq!(back[0].queue_depth, None);

    let drives: Vec<DriveSnapshot> = second;
    let totals = io_totals_from(None, None, Some(&drives));
    assert_eq!(totals.disk_read_ops_per_sec, Some(100));
    assert_eq!(totals.disk_write_ops_per_sec, Some(0));
}
