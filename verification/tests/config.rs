use zstats::config::{
    duration_fits, format_duration, format_size, parse_duration, parse_size, CollectorConfig,
};
use zstats::rate::{bytes_per_sec, rate_per_sec};
use zstats::time::Duration;

#[test]
fn parse_duration_accepts_units_and_bare_millis() {
    assert_eq!(parse_duration("500ms").unwrap(), Duration::from_millis(500));
    assert_eq!(parse_duration("2s").unwrap(), Duration::from_secs(2));
    assert_eq!(parse_duration("5m").unwrap(), Duration::from_secs(300));
    assert_eq!(parse_duration("1h").unwrap(), Duration::from_secs(3600));
    assert_eq!(parse_duration("1500").unwrap(), Duration::from_millis(1500));
    assert_eq!(parse_duration(" 10s ").unwrap(), Duration::from_secs(10));
    assert!(parse_duration("").is_err());
    assert!(parse_duration("1.5s").is_err());
    assert!(parse_duration("5x").is_err());
    assert!(parse_duration("s").is_err());
}

#[test]
fn format_duration_picks_compact_unit() {
    assert_eq!(format_duration(Duration::zero()), "0s");
    assert_eq!(format_duration(Duration::from_millis(1500)), "1500ms");
    assert_eq!(format_duration(Duration::from_secs(90)), "90s");
    assert_eq!(format_duration(Duration::from_secs(300)), "5m");
    assert_eq!(format_duration(Duration::from_secs(3600)), "1h");
}

#[test]
fn sizes_parse_from_both_unit_families_and_round_trip() {
    assert_eq!(parse_size("4GiB"), Ok(4 << 30));
    assert_eq!(parse_size("4G"), Ok(4 << 30), "bare units are binary");
    assert_eq!(parse_size("512MiB"), Ok(512 << 20));
    assert_eq!(
        parse_size("2GB"),
        Ok(2_000_000_000),
        "GB means what it says"
    );
    assert_eq!(parse_size("1024"), Ok(1024), "a bare number is bytes");
    assert!(parse_size("4 gigs").is_err());
    assert!(parse_size("").is_err());
    assert!(
        parse_size("99999999999999999999GiB").is_err(),
        "no wraparound"
    );

    assert_eq!(format_size(4 << 30), "4GiB");
    assert_eq!(format_size(1536), "1536B", "not a lying 1.5KiB");
    assert_eq!(format_size(0), "0B");
    for text in ["4GiB", "512MiB", "1536B"] {
        assert_eq!(format_size(parse_size(text).expect("parse")), text);
    }
}

#[test]
fn duration_messages_name_what_is_wrong() {
    assert_eq!(parse_duration("  ").unwrap_err(), "empty duration");
    assert_eq!(
        parse_duration(" x5 ").unwrap_err(),
        "invalid duration:  x5 "
    );
    assert_eq!(
        parse_duration("5 days").unwrap_err(),
        "invalid duration unit: days (use ms, s, m or h)"
    );
    assert_eq!(
        parse_duration("99999999999999999999").unwrap_err(),
        "invalid duration: 99999999999999999999"
    );
    assert_eq!(parse_duration("7 s").unwrap(), Duration::from_secs(7));
}

#[test]
fn a_duration_beyond_64_bits_of_milliseconds_does_not_fit() {
    assert!(duration_fits("18446744073709551615"));
    assert!(!duration_fits("18446744073709551615s"));
    assert!(duration_fits("18446744073709551s"));
    assert!(duration_fits("not a duration"));
}

#[test]
fn durations_print_and_read_back() {
    for ms in [0, 1, 999, 1000, 61_000, 3_600_000, 86_400_000, u64::MAX] {
        let d = Duration::from_millis(ms);
        assert_eq!(parse_duration(&format_duration(d)).unwrap(), d);
    }
}

#[test]
fn sizes_print_and_read_back() {
    for bytes in [0, 1, 1023, 1024, 1 << 20, (1 << 30) + 1, 7 << 40, u64::MAX] {
        assert_eq!(parse_size(&format_size(bytes)), Ok(bytes));
    }
}

#[test]
fn size_messages_name_what_is_wrong() {
    assert_eq!(parse_size("").unwrap_err(), "empty size");
    assert_eq!(parse_size("x").unwrap_err(), "invalid size: x");
    assert_eq!(
        parse_size("4 GIGS").unwrap_err(),
        "invalid size unit: gigs (use B, KiB, MiB, GiB, TiB or their KB/MB/GB forms)"
    );
    assert_eq!(
        parse_size("18446744073709551615k").unwrap_err(),
        "size out of range: 18446744073709551615k"
    );
    assert_eq!(parse_size("3tb"), Ok(3_000_000_000_000));
    assert_eq!(parse_size("3 KiB"), Ok(3072));
}

#[test]
fn collector_defaults() {
    let config = CollectorConfig::default("linux");
    assert!(config.collect_disks);
    assert!(!config.collect_process_disk_io);
    assert_eq!(config.max_processes, 50);
    assert_eq!(config.process_boost_cpu_cores, Some(2_000_000));
    assert_eq!(config.disk_storage_refresh_interval, Duration::from_secs(60));
    assert_eq!(config.collect_timeout, Duration::from_secs(2));
}

#[test]
fn normal_rate() {
    assert_eq!(rate_per_sec(1000, 3000, Duration::from_secs(2)), 1000);
}

#[test]
fn sub_second_interval() {
    assert_eq!(rate_per_sec(0, 500, Duration::from_millis(500)), 1000);
}

#[test]
fn counter_reset_returns_zero() {
    assert_eq!(rate_per_sec(5000, 100, Duration::from_secs(1)), 0);
}

#[test]
fn zero_elapsed_returns_zero() {
    assert_eq!(rate_per_sec(0, 1000, Duration::zero()), 0);
}

#[test]
fn rates_round_to_the_nearest_whole_number() {
    assert_eq!(rate_per_sec(0, 5, Duration::from_secs(2)), 3);
    assert_eq!(rate_per_sec(0, 4, Duration::from_secs(3)), 1);
    assert_eq!(rate_per_sec(0, 1, Duration::from_secs(3)), 0);
    assert_eq!(
        rate_per_sec(0, u64::MAX, Duration { nanos: 1 }),
        u64::MAX,
        "kept to the range"
    );
}

#[test]
fn throughput_rounds_down_and_needs_time() {
    assert_eq!(bytes_per_sec(Some(5), Some(Duration::from_secs(2))), Some(2));
    assert_eq!(bytes_per_sec(Some(5), Some(Duration::zero())), None);
    assert_eq!(bytes_per_sec(Some(5), None), None);
    assert_eq!(bytes_per_sec(None, Some(Duration::from_secs(2))), None);
}
