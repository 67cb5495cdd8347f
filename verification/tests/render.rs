use zstats::render::figures::{
    human_bytes, human_rate, human_uptime, hundredths, pad, signed_tenths, tenths, whole,
};
use zstats::render::table::{write_table, Align};
use zstats::render::theme::{
    gauge, level_color, repeat, styled_gauge, Theme, DIM, GREEN, RED_BOLD, YELLOW,
};
use zstats::render::view::{render, render_with, repaint, TextSink};
use zstats::render::width::{truncate_width, visible_width};
use zstats::snapshot::{
    BatterySnapshot, Capabilities, CpuSnapshot, DiskSnapshot, HostInfo, IoTotalsSnapshot,
    LoadSnapshot, MemorySnapshot, NetworkSnapshot, PerfLevelSnapshot, ProcessSnapshot,
    SystemSnapshot, TemperatureSnapshot,
};
use zstats::time::Instant;

fn units(value: f64) -> u64 {
    (value * 1e6).round() as u64
}

/// The level of a gauge that stands at `fraction` of its width
fn level(fraction: f64) -> i128 {
    (fraction * 1e8).round() as i128
}

fn texts(cells: &[&str]) -> Vec<String> {
    cells.iter().map(|c| c.to_string()).collect()
}

#[test]
fn human_bytes_units() {
    assert_eq!(human_bytes(512), "512 B");
    assert_eq!(human_bytes(2048), "2.0 KiB");
    assert_eq!(human_bytes(5 * 1024 * 1024), "5.0 MiB");
    assert_eq!(human_bytes(3_221_225_472), "3.0 GiB");
}

#[test]
fn human_bytes_at_the_ends() {
    assert_eq!(human_bytes(0), "0 B");
    assert_eq!(human_bytes(1023), "1023 B");
    assert_eq!(human_bytes(1024), "1.0 KiB");
    assert_eq!(human_bytes(1024 * 1024 - 1), "1024.0 KiB");
    assert_eq!(human_bytes(1 << 40), "1.0 TiB");
    assert_eq!(human_bytes(u64::MAX), "16777216.0 TiB");
}

#[test]
fn human_rate_missing_baseline() {
    assert_eq!(human_rate(None), "-");
    assert_eq!(human_rate(Some(1024)), "1.0 KiB/s");
}

#[test]
fn human_uptime_picks_two_leading_units() {
    assert_eq!(human_uptime(0), "0s");
    assert_eq!(human_uptime(17), "17s");
    assert_eq!(human_uptime(59), "59s");
    assert_eq!(human_uptime(60), "1m");
    assert_eq!(human_uptime(42 * 60), "42m");
    assert_eq!(human_uptime(3600), "1h0m");
    assert_eq!(human_uptime(5 * 3600 + 12 * 60 + 40), "5h12m");
    assert_eq!(human_uptime(86_400), "1d0h");
    assert_eq!(human_uptime(3 * 86_400 + 4 * 3600 + 59 * 60), "3d4h");
}

#[test]
fn figures_are_rounded_to_their_places() {
    assert_eq!(tenths(units(12.34)), "12.3");
    assert_eq!(tenths(units(12.36)), "12.4");
    assert_eq!(signed_tenths(-1_260_000), "-1.3");
    assert_eq!(hundredths(units(0.07)), "0.07");
    assert_eq!(hundredths(units(3.146)), "3.15");
    assert_eq!(whole(units(99.6)), "100");
    assert_eq!(pad("7".to_string(), 3), "  7");
    assert_eq!(pad("1234".to_string(), 3), "1234");
}

#[test]
fn gauge_renders_fill_levels() {
    assert_eq!(gauge(level(0.0), 4), "░░░░");
    assert_eq!(gauge(level(0.5), 4), "██░░");
    assert_eq!(gauge(level(1.0), 4), "████");
    // Out-of-range fractions are clamped
    assert_eq!(gauge(level(1.5), 4), "████");
    assert_eq!(gauge(level(-0.5), 4), "░░░░");
}

#[test]
fn levels_have_colors() {
    assert_eq!(level_color(units(59.9) as i128, 60_000_000, 85_000_000), GREEN);
    assert_eq!(level_color(60_000_000, 60_000_000, 85_000_000), YELLOW);
    assert_eq!(level_color(85_000_000, 60_000_000, 85_000_000), RED_BOLD);
    assert_eq!(styled_gauge(level(0.5), 2, Theme::plain()), "█░");
    assert_eq!(repeat('x', 3), "xxx");
}

#[test]
fn table_columns_align() {
    let mut out = String::new();
    write_table(
        &mut out,
        "NET",
        &texts(&["IFACE", "RX", "TX"]),
        &vec![Align::Left, Align::Right, Align::Right],
        &vec![
            vec!["en0".into(), "13.1 KiB/s".into(), "14.8 KiB/s".into()],
            vec!["bridge100".into(), "3.4 KiB/s".into(), "358 B/s".into()],
        ],
        Theme::plain(),
    );
    let expected = "\
NET   IFACE              RX          TX
      en0        13.1 KiB/s  14.8 KiB/s
      bridge100   3.4 KiB/s     358 B/s
";
    assert_eq!(out, expected);
}

#[test]
fn truncate_by_display_width() {
    assert_eq!(truncate_width("short", 10), "short");
    assert_eq!(truncate_width("abcdef", 4), "abc…");
    // Multi-byte chars must not be cut mid-codepoint
    assert_eq!(truncate_width("ééééé", 3), "éé…");
    // CJK chars occupy two display columns each
    assert_eq!(truncate_width("企业微信", 5), "企业…");
}

#[test]
fn table_aligns_cjk_by_display_width() {
    let mut out = String::new();
    write_table(
        &mut out,
        "TOP",
        &texts(&["NAME", "MEM"]),
        &vec![Align::Left, Align::Right],
        &vec![
            vec!["chrome".into(), "1.0 GiB".into()],
            vec!["企业微信".into(), "449.6 MiB".into()],
        ],
        Theme::plain(),
    );
    // "企业微信" is 8 display columns wide, so it sets the NAME width
    let expected = "\
TOP   NAME            MEM
      chrome      1.0 GiB
      企业微信  449.6 MiB
";
    assert_eq!(out, expected);
}

#[test]
fn empty_table_writes_nothing() {
    let mut out = String::new();
    write_table(
        &mut out,
        "DISK",
        &texts(&["NAME"]),
        &vec![Align::Left],
        &vec![],
        Theme::plain(),
    );
    assert!(out.is_empty());
}

#[test]
fn visible_width_ignores_ansi_escapes() {
    let theme = Theme { enabled: true };
    let painted = theme.paint(RED_BOLD, "abc");
    assert!(painted.contains("\x1b["));
    assert_eq!(visible_width(&painted), 3);
    // CJK still counts as two columns each
    assert_eq!(visible_width(&theme.paint(GREEN, "企业")), 4);
}

#[test]
fn colored_cells_stay_aligned() {
    let theme = Theme { enabled: true };
    let mut out = String::new();
    write_table(
        &mut out,
        "DISK",
        &texts(&["MOUNT", "USE%"]),
        &vec![Align::Left, Align::Right],
        &vec![
            vec!["/".into(), theme.paint(RED_BOLD, "98.8%")],
            vec!["/System".into(), "72.6%".into()],
        ],
        Theme::plain(),
    );
    // Both data lines must end at the same visible column
    let lines: Vec<&str> = out.lines().skip(1).collect();
    assert_eq!(visible_width(lines[0]), visible_width(lines[1]));
}

#[test]
fn plain_theme_paints_nothing() {
    assert_eq!(Theme::plain().paint(RED_BOLD, "text"), "text");
}

fn proc(pid: u32, cpu: f32, mem: u64) -> ProcessSnapshot {
    ProcessSnapshot {
        pid,
        name: format!("p{pid}"),
        display_name: None,
        cmd: String::new(),
        cpu_usage_percent: units(cpu.into()),
        cpu_time_ms: 0,
        memory_bytes: mem,
        phys_footprint_bytes: None,
        virtual_memory_bytes: mem,
        run_time_secs: 0,
        parent_pid: None,
        user_id: None,
        status: "Runnable".into(),
        read_bytes_per_sec: None,
        write_bytes_per_sec: None,
    }
}

#[test]
fn text_sink_averages_across_writes_and_prunes_dead_pids() {
    let mut sink = TextSink::new(false);

    let first = sink.averages(Instant { nanos: 1 }, &vec![proc(1, 10.0, 100)]);
    assert_eq!(first[&1], (units(10.0), 100));

    // Second sample: averages over both
    let second = sink.averages(Instant { nanos: 2 }, &vec![proc(1, 20.0, 300)]);
    assert!((second[&1].0 as f64 / 1e6 - 15.0).abs() < 0.01);
    assert_eq!(second[&1].1, 200);

    // PID 1 gone: its history must be pruned
    let third = sink.averages(Instant { nanos: 3 }, &vec![proc(2, 1.0, 1)]);
    assert!(!third.contains_key(&1));
    assert_eq!(third[&2], (units(1.0), 1));
}

fn snapshot() -> SystemSnapshot {
    SystemSnapshot {
        timestamp: 0,
        host: HostInfo {
            hostname: "box".into(),
            os_name: "Linux".into(),
            os_version: "6.1".into(),
            kernel_version: None,
            arch: "x86_64".into(),
            uptime_secs: 3600,
            labels: Vec::new(),
        },
        cpu: CpuSnapshot {
            usage_percent: units(25.0),
            per_core_usage: Vec::new(),
            logical_cores: 8,
            physical_cores: Some(4),
            frequency_mhz: Some(2400),
            per_core_frequency_mhz: Vec::new(),
            brand: None,
            perf_levels: None,
        },
        memory: MemorySnapshot {
            total_bytes: 16 << 30,
            used_bytes: 8 << 30,
            available_bytes: 8 << 30,
            swap_total_bytes: 0,
            swap_used_bytes: 0,
            used_percent: units(50.0),
            swap_used_percent: 0,
            compressed_bytes: None,
            pressure_level: None,
            swap_ins_per_sec: None,
            swap_outs_per_sec: None,
            swap_thrashing: None,
            kernel_available_percent: None,
        },
        disks: None,
        networks: None,
        processes: None,
        process_groups: None,
        total_processes: None,
        battery: None,
        gpus: None,
        drives: None,
        load: LoadSnapshot {
            load1: units(1.0),
            load5: units(2.5),
            load15: units(0.333),
        },
        temperatures: None,
        io_totals: IoTotalsSnapshot::default(),
        capabilities: Capabilities::current("linux"),
        extras: Vec::new(),
    }
}

#[test]
fn a_bare_snapshot_has_the_four_leading_lines() {
    let expected = "\
HOST  box  Linux 6.1 (x86_64)  up 1h0m  2026-07-01 12:00:00
CPU   █████░░░░░░░░░░░░░░░   25.0%  8 cores @ 2400 MHz
MEM   ██████████░░░░░░░░░░   50.0%  8.0 GiB / 16.0 GiB
LOAD  ███░░░░░░░░░░░░░░░░░    1.00  2.50 · 0.33
";
    assert_eq!(render(&snapshot(), "2026-07-01 12:00:00"), expected);
}

#[test]
fn every_optional_line_is_shown_when_it_was_read() {
    let mut s = snapshot();
    s.cpu.brand = Some("M4".into());
    s.cpu.perf_levels = Some(vec![
        PerfLevelSnapshot {
            name: "Performance".into(),
            logical_cores: 8,
            usage_percent: units(12.4),
        },
        PerfLevelSnapshot {
            name: "Efficiency".into(),
            logical_cores: 4,
            usage_percent: units(30.6),
        },
    ]);
    s.memory.compressed_bytes = Some(1024);
    s.memory.pressure_level = Some(2);
    s.memory.swap_total_bytes = 2048;
    s.memory.swap_used_bytes = 1024;
    s.memory.swap_used_percent = units(50.0);
    s.total_processes = Some(321);
    s.battery = Some(BatterySnapshot {
        state: "Discharging".into(),
        charge_percent: units(50.0),
        health_percent: Some(units(98.6)),
        cycle_count: Some(7),
        temperature_celsius: None,
        power_watts: Some(units(9.96)),
        time_to_full_secs: Some(1),
        time_to_empty_secs: Some(3600),
    });
    s.temperatures = Some(vec![TemperatureSnapshot {
        label: "PMU tdie8".into(),
        celsius: 70_000_000,
        max_celsius: None,
        critical_celsius: None,
    }]);
    s.io_totals.disk_read_bytes_per_sec = Some(1024);
    let text = render(&s, "now");
    let lines: Vec<&str> = text.lines().collect();
    assert_eq!(
        lines[1],
        "CPU   █████░░░░░░░░░░░░░░░   25.0%  8 cores @ 2400 MHz  M4  P8 12% · E4 31%"
    );
    assert_eq!(
        lines[2],
        "MEM   ██████████░░░░░░░░░░   50.0%  8.0 GiB / 16.0 GiB  ·  zip 1.0 KiB  ·  pressure warning"
    );
    assert_eq!(
        lines[3],
        "SWP   ██████████░░░░░░░░░░   50.0%  1.0 KiB / 2.0 KiB"
    );
    assert_eq!(
        lines[4],
        "LOAD  ███░░░░░░░░░░░░░░░░░    1.00  2.50 · 0.33  ·  321 procs"
    );
    assert_eq!(
        lines[5],
        "BATT  ██████████░░░░░░░░░░   50.0%  on battery  ·  1h0m left  ·  10.0 W  ·  health 99%  ·  7 cycles"
    );
    assert_eq!(
        lines[6],
        "TEMP  ██████████████░░░░░░   70.0°C  warm  ·  1 sensors (max PMU tdie8)"
    );
    assert_eq!(lines[7], "IO    disk 1.0 KiB/s↓ -↑  ·  net -↓ -↑");
    assert_eq!(lines.len(), 8);

    s.temperatures = Some(Vec::new());
    assert!(render(&s, "now").contains("TEMP  (no sensors)\n"));
}

#[test]
fn volumes_are_listed_with_their_bars() {
    let mut s = snapshot();
    s.disks = Some(vec![DiskSnapshot {
        name: "disk0".into(),
        mount_point: "/".into(),
        file_system: "apfs".into(),
        kind: String::new(),
        is_removable: false,
        total_bytes: 2048,
        available_bytes: 1024,
        used_percent: units(50.0),
        read_bytes_per_sec: Some(0),
        write_bytes_per_sec: None,
    }]);
    let text = render(&s, "now");
    let tail: Vec<&str> = text.lines().skip(4).collect();
    assert_eq!(
        tail,
        vec![
            "DISK  MOUNT  KIND  USED             USE%     FREE    TOTAL   READ  WRITE",
            "      /      -     ███████░░░░░░░  50.0%  1.0 KiB  2.0 KiB  0 B/s      -",
        ]
    );
}

fn nic(name: &str, rx: u64, errors: u64) -> NetworkSnapshot {
    NetworkSnapshot {
        interface: name.into(),
        received_bytes_per_sec: rx,
        transmitted_bytes_per_sec: 0,
        received_packets_per_sec: None,
        transmitted_packets_per_sec: None,
        received_errors_per_sec: Some(errors),
        transmitted_errors_per_sec: None,
    }
}

#[test]
fn interfaces_keep_a_fixed_height_and_rank_by_traffic() {
    let mut s = snapshot();
    s.networks = Some(vec![
        nic("awdl0", 0, 0),
        nic("lo0", 0, 0),
        nic("en1", 0, 0),
        nic("en0", 0, 0),
        nic("utun3", 5, 2),
        nic("anpi0", 0, 0),
        nic("bridge0", 0, 0),
        nic("zz", 100, 0),
    ]);
    let text = render(&s, "now");
    let tail: Vec<&str> = text.lines().skip(4).collect();
    assert_eq!(
        tail,
        vec![
            "NET   IFACE      RX↓    TX↑  ERR↓/↑",
            "      zz     100 B/s  0 B/s       -",
            "      utun3    5 B/s  0 B/s     2/0",
            "      en0      0 B/s  0 B/s       -",
            "      en1      0 B/s  0 B/s       -",
            "      lo0      0 B/s  0 B/s       -",
            "      anpi0    0 B/s  0 B/s       -",
        ]
    );
    s.networks = Some(Vec::new());
    assert!(render(&s, "now").ends_with("NET   (no interfaces)\n"));
}

#[test]
fn idle_memory_hogs_stay_in_the_process_table() {
    let mut s = snapshot();
    let mut processes: Vec<ProcessSnapshot> =
        (1..=12).map(|pid| proc(pid, pid as f32, 1024)).collect();
    processes.push(proc(99, 0.0, 1 << 30));
    processes[11].cmd = "run --all".into();
    s.processes = Some(processes);
    let text = render(&s, "now");
    let tail: Vec<&str> = text.lines().skip(4).collect();
    assert_eq!(tail.len(), 10);
    assert_eq!(tail[0], "PROC  PID  NAME  CPU%      MEM  CMD");
    assert_eq!(tail[1], "       12  p12   12.0  1.0 KiB  run --all");
    assert_eq!(tail[5], "        8  p8     8.0  1.0 KiB  -");
    assert_eq!(tail[6], "       99  p99    0.0  1.0 GiB  -");
    assert_eq!(tail[7], "        1  p1     1.0  1.0 KiB  -");
}

#[test]
fn averages_stand_beside_the_current_values() {
    let mut s = snapshot();
    s.processes = Some(vec![proc(7, 10.0, 1024)]);
    let mut averages: std::collections::HashMap<u32, (u64, u64)> = std::collections::HashMap::new();
    averages.insert(7, (units(2.5), 2048));
    let text = render_with(&s, Some(&averages), Theme::plain(), "now");
    let tail: Vec<&str> = text.lines().skip(4).collect();
    assert_eq!(
        tail,
        vec![
            "PROC  PID  NAME  CPU%(AVG)          MEM(AVG)  CMD",
            "        7  p7    10.0(2.5)  1.0 KiB(2.0 KiB)  -",
        ]
    );
}

#[test]
fn a_terminal_frame_repaints_in_place() {
    assert_eq!(repaint("a\nb\n"), "\x1b[Ha\x1b[K\nb\x1b[K\n\x1b[J");
    let mut plain = TextSink::new(false).with_footer("q quit");
    let frame = plain.write(Instant { nanos: 1 }, &snapshot(), "now");
    assert!(frame.starts_with("HOST  box"));
    assert!(frame.ends_with("q quit\n\n"));
    let mut live = TextSink::new(true).with_footer("q quit");
    let frame = live.write(Instant { nanos: 1 }, &snapshot(), "now");
    assert!(frame.starts_with("\x1b[HHOST  box"));
    assert!(frame.ends_with("\x1b[2mq quit\x1b[0m\x1b[K\n\x1b[J"));
    assert_eq!(DIM, "2");
}

#[test]
fn absorbed_snapshots_count_in_the_averages() {
    let mut sink = TextSink::new(false);
    let mut s = snapshot();
    sink.absorb(Instant { nanos: 1 }, &s);
    s.processes = Some(vec![proc(1, 10.0, 100)]);
    sink.absorb(Instant { nanos: 2 }, &s);
    let averages = sink.averages(Instant { nanos: 3 }, &vec![proc(1, 20.0, 300)]);
    assert_eq!(averages[&1], (units(15.0), 200));
}

#[test]
fn colours_take_no_columns() {
    let theme = Theme { enabled: true };
    for text in ["", "abc", "企业", "\x1b[", "a\x1b[2mb"] {
        assert_eq!(
            visible_width(&theme.paint(YELLOW, text)),
            visible_width(text)
        );
    }
}

#[test]
fn alignments_beyond_the_columns_do_not_matter() {
    let mut out = String::new();
    write_table(
        &mut out,
        "NET",
        &texts(&["A", "B"]),
        &vec![Align::Left, Align::Right, Align::Left],
        &vec![texts(&["x", "10"]), texts(&["yy"])],
        Theme::plain(),
    );
    assert_eq!(out, "NET   A    B\n      x   10\n      yy\n");
}
