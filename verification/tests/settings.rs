use zstats::error::{file_content, ConfigError, FileRead};
use zstats::overrides::{NameMap, Overrides};
use zstats::settings::{apply_add, apply_remove, FileConfig, PressureAlert};
use zstats::time::Duration;

fn percent(value: f64) -> i64 {
    (value * 1e6).round() as i64
}

fn settings_apply(config: &mut FileConfig, key: &str, value: &str) {
    apply_add(config, key, value, "linux").unwrap_or_else(|e| panic!("apply {key}={value}: {e}"));
}

#[test]
fn apply_add_maps_keys_to_sections() {
    let mut config = FileConfig::default();
    settings_apply(&mut config, "interval", "5s");
    settings_apply(&mut config, "detach", "false");
    settings_apply(&mut config, "process-interval", "10000");
    settings_apply(&mut config, "collect-temperatures", "false");
    settings_apply(&mut config, "alert-cpu", "40");
    settings_apply(&mut config, "alert-cpu", "ghostty=100");
    settings_apply(&mut config, "alert-disk", "95");
    settings_apply(&mut config, "alert-disk", "/Volumes/Backup=0");
    settings_apply(&mut config, "alert-pressure", "critical");
    settings_apply(&mut config, "alert-template", "false");
    settings_apply(&mut config, "process-boost", "0");

    assert_eq!(config.daemon.interval, Some(Duration::from_secs(5)));
    assert_eq!(config.daemon.detach, Some(false));
    let collector = config.collector.as_ref().expect("collector section");
    assert_eq!(collector.process_refresh_interval, Duration::from_secs(10));
    assert!(!collector.collect_temperatures);
    // 0 persists as Some(0.0): "disabled" must survive a file
    // round-trip, and an absent (None) field would not
    assert_eq!(collector.process_boost_cpu_cores, Some(percent(0.0) as u64));
    assert_eq!(config.alerts.cpu, Some(percent(40.0)));
    assert_eq!(
        config.alerts.cpu_overrides.get("ghostty"),
        Some(percent(100.0))
    );
    assert_eq!(config.alerts.disk, Some(percent(95.0)));
    assert_eq!(
        config.alerts.disk_overrides.get("/Volumes/Backup"),
        Some(percent(0.0))
    );
    assert_eq!(config.alerts.pressure, Some(PressureAlert::Critical));
    assert_eq!(config.alerts.template, Some(false));

    apply_remove(&mut config, "alert-pressure", None, "linux").expect("reset pressure");
    assert_eq!(config.alerts.pressure, None);
    apply_remove(&mut config, "alert-template", None, "linux").expect("reset template");
    assert_eq!(config.alerts.template, None);
    apply_remove(&mut config, "alert-disk", Some("/Volumes/Backup"), "linux").expect("drop override");
    assert!(config.alerts.disk_overrides.is_empty());
    apply_remove(&mut config, "alert-disk", None, "linux").expect("reset disk");
    assert_eq!(config.alerts.disk, None);
}

#[test]
fn apply_add_rejects_unknown_keys_and_bad_values() {
    let mut config = FileConfig::default();
    assert!(apply_add(&mut config, "no-such-key", "1", "linux").is_err());
    assert!(apply_add(&mut config, "interval", "abc", "linux").is_err());
    assert!(apply_add(&mut config, "interval", "0", "linux").is_err());
    assert!(apply_add(&mut config, "collect-disks", "yes", "linux").is_err());
    assert!(apply_add(&mut config, "alert-cpu", "=100", "linux").is_err());
    assert!(apply_add(&mut config, "alert-disk", "=90", "linux").is_err());
    assert!(apply_add(&mut config, "alert-pressure", "loud", "linux").is_err());
    assert!(apply_add(&mut config, "process-boost", "-1", "linux").is_err());
    // A `*` only means anything at the ends; an interior one is
    // refused rather than stored as a literal name that can never
    // match (see alerts::Matcher)
    assert!(apply_add(&mut config, "alert-cpu", "rust*analyzer=100", "linux").is_err());
    assert!(apply_add(&mut config, "alert-mem", "a*b=10", "linux").is_err());
    assert!(apply_add(&mut config, "alert-app-cpu", "a*b=10", "linux").is_err());
    assert!(apply_add(&mut config, "alert-disk", "/Vol*umes=90", "linux").is_err());
}

#[test]
fn alert_mem_bytes_takes_human_sizes_and_round_trips() {
    let mut config = FileConfig::default();
    settings_apply(&mut config, "alert-mem-bytes", "4GiB");
    assert_eq!(config.alerts.mem_bytes, Some(4 << 30));
    settings_apply(&mut config, "alert-mem-bytes", "1500MB");
    assert_eq!(config.alerts.mem_bytes, Some(1_500_000_000));
    settings_apply(&mut config, "alert-mem-bytes", "0");
    assert_eq!(
        config.alerts.mem_bytes,
        Some(0),
        "0 = no ceiling, not unset"
    );
    assert!(apply_add(&mut config, "alert-mem-bytes", "4 gigs", "linux").is_err());

    // A file keeps the human form, and reading it back gives the
    // same bytes
    settings_apply(&mut config, "alert-mem-bytes", "6GiB");
    let text = zstats::config::format_size(config.alerts.mem_bytes.expect("set"));
    let line = format!("mem_bytes = {text:?}");
    assert!(line.contains(r#"mem_bytes = "6GiB""#), "got: {line}");
    assert_eq!(zstats::config::parse_size(&text), Ok(6 << 30));

    apply_remove(&mut config, "alert-mem-bytes", None, "linux").expect("remove");
    assert_eq!(config.alerts.mem_bytes, None);
}

#[test]
fn apply_add_accepts_name_patterns() {
    let mut config = FileConfig::default();
    settings_apply(&mut config, "alert-cpu", "rust-analyzer*=200");
    settings_apply(&mut config, "alert-cpu", "*Helper (Renderer)=100");
    assert_eq!(
        config.alerts.cpu_overrides.get("rust-analyzer*"),
        Some(percent(200.0))
    );
    assert_eq!(
        config.alerts.cpu_overrides.get("*Helper (Renderer)"),
        Some(percent(100.0))
    );

    // -remove takes the key verbatim, patterns included
    apply_remove(&mut config, "alert-cpu", Some("rust-analyzer*"), "linux").expect("remove pattern");
    assert!(!config.alerts.cpu_overrides.contains_key("rust-analyzer*"));
}

#[test]
fn apply_remove_resets_and_drops_overrides() {
    let mut config = FileConfig::default();
    settings_apply(&mut config, "interval", "5000");
    settings_apply(&mut config, "alert-cooldown", "10m");
    settings_apply(&mut config, "alert-cpu", "40");
    settings_apply(&mut config, "alert-cpu", "ghostty=100");
    settings_apply(&mut config, "disk-interval", "9000");

    apply_remove(&mut config, "interval", None, "linux").expect("remove interval");
    assert_eq!(config.daemon.interval, None);

    apply_remove(&mut config, "alert-cpu", Some("ghostty"), "linux").expect("remove override");
    assert!(config.alerts.cpu_overrides.is_empty());
    // The rule default is untouched by an override removal
    assert_eq!(config.alerts.cpu, Some(percent(40.0)));

    apply_remove(&mut config, "disk-interval", None, "linux").expect("reset cadence");
    assert_eq!(
        config.collector.as_ref().unwrap().disk_io_refresh_interval,
        Duration::zero()
    );

    assert!(apply_remove(&mut config, "alert-cpu", Some("missing"), "linux").is_err());
    assert!(apply_remove(&mut config, "interval", Some("name"), "linux").is_err());
}

fn refusal(key: &str, value: &str) -> String {
    apply_add(&mut FileConfig::default(), key, value, "linux").expect_err("refused")
}

#[test]
fn refusals_name_the_key_and_the_value() {
    assert_eq!(refusal("interval", "0"), "interval must be greater than 0");
    assert_eq!(
        refusal("alert-cpu", "=100"),
        "invalid value for alert-cpu: =100 (empty name)"
    );
    assert_eq!(
        refusal("alert-disk", "=90"),
        "invalid value for alert-disk: =90 (empty mount)"
    );
    assert_eq!(
        refusal("alert-mem", "a*b=10"),
        "invalid value for alert-mem: a*b (a `*` may only start or end a name)"
    );
    assert_eq!(
        refusal("alert-pressure", "Loud"),
        "invalid value for alert-pressure: loud (use off|warning|critical)"
    );
    assert_eq!(
        refusal("alert-mem-bytes", "4 gigs"),
        format!(
            "invalid value for alert-mem-bytes: {}",
            zstats::config::parse_size("4 gigs").unwrap_err()
        )
    );
    assert!(refusal("nope", "1").starts_with("unknown key: nope (known keys: interval, history, "));
    assert_eq!(
        refusal("process-boost", "nan"),
        "invalid value for process-boost: nan"
    );
    let mut config = FileConfig::default();
    assert_eq!(
        apply_remove(&mut config, "alert-cpu", Some("x"), "linux").unwrap_err(),
        "no alert-cpu override found for x"
    );
    assert_eq!(
        apply_remove(&mut config, "interval", Some("x"), "linux").unwrap_err(),
        "interval has no per-name overrides"
    );
}

#[test]
fn changes_are_described() {
    let mut config = FileConfig::default();
    assert_eq!(
        apply_add(&mut config, "interval", " 5s ", "linux").as_deref(),
        Ok("interval = 5s")
    );
    assert_eq!(
        apply_add(&mut config, "alert-cpu", " node = 12.5", "linux").as_deref(),
        Ok("alert-cpu override: node = 12.5% (0 disables)")
    );
    for (value, told) in [
        ("inf", "inf"),
        ("-inf", "-inf"),
        ("nan", "NaN"),
        ("-0", "-0"),
        ("0.0000001", "0.0000001"),
        ("1e2", "100"),
    ] {
        assert_eq!(
            apply_add(&mut config, "alert-cpu", &format!("x={value}"), "linux"),
            Ok(format!("alert-cpu override: x = {told}% (0 disables)"))
        );
    }
    // More than can be counted
    assert_eq!(
        apply_add(&mut config, "max-processes", "18446744073709551616", "linux"),
        Err("invalid value for max-processes: 18446744073709551616".to_string())
    );
    assert_eq!(
        apply_add(&mut config, "alert-mem-bytes", "4096", "linux").as_deref(),
        Ok("alert-mem-bytes = 4KiB (0 removes the absolute ceiling; the effective bar is the lower of this and alert-mem)")
    );
    assert_eq!(
        apply_remove(&mut config, "alert-cpu", Some("node"), "linux").as_deref(),
        Ok("removed alert-cpu override for node")
    );
    assert_eq!(
        apply_remove(&mut config, "interval", None, "linux").as_deref(),
        Ok("interval reset to default")
    );
}

#[test]
fn removing_a_setting_undoes_adding_it() {
    for (key, value) in [("history", "1h"), ("alert-app-cpu", "150"), ("alert-template", "true")] {
        let mut config = FileConfig::default();
        settings_apply(&mut config, key, value);
        apply_remove(&mut config, key, None, "linux").expect("known key");
        assert_eq!(config.daemon.history, None);
        assert_eq!(config.alerts.app_cpu, None);
        assert_eq!(config.alerts.template, None);
    }
}

#[test]
fn an_override_touches_one_rule() {
    let mut config = FileConfig::default();
    settings_apply(&mut config, "alert-mem", "chrome=40");
    assert_eq!(config.alerts.mem_overrides.get("chrome"), Some(percent(40.0)));
    assert!(config.alerts.cpu_overrides.is_empty());
    assert!(config.alerts.app_mem_overrides.is_empty());
    assert_eq!(config.alerts.mem, None);
}

#[test]
fn pressure_levels_have_several_spellings() {
    assert_eq!(PressureAlert::parse(" OFF "), Ok(PressureAlert::Off));
    assert_eq!(PressureAlert::parse("warn"), Ok(PressureAlert::Warning));
    assert_eq!(PressureAlert::parse("crit"), Ok(PressureAlert::Critical));
    assert_eq!(PressureAlert::from_bool(true), PressureAlert::Warning);
    assert_eq!(PressureAlert::from_bool(false), PressureAlert::Off);
    assert_eq!(PressureAlert::Off.level(), None);
    assert_eq!(PressureAlert::Warning.level(), Some(2));
    assert_eq!(PressureAlert::Critical.level(), Some(4));
}

#[test]
fn names_are_kept_in_order_and_once() {
    let mut names: Overrides = NameMap::new();
    names.insert("node", 1);
    names.insert("cargo", 2);
    names.insert("node", 3);
    assert_eq!(names.len(), 2);
    assert_eq!(names.entry(0), ("cargo".to_string(), 2));
    assert_eq!(names.entry(1), ("node".to_string(), 3));
    assert_eq!(names.get("node"), Some(3));
    assert!(names.remove("cargo"));
    assert!(!names.remove("cargo"));
    assert_eq!(names.get("cargo"), None);
}

#[test]
fn an_unreadable_file_is_no_empty_file() {
    assert_eq!(file_content("p", FileRead::Missing), Ok(None));
    assert_eq!(
        file_content("p", FileRead::Content("x".into())),
        Ok(Some("x".to_string()))
    );
    let error = file_content("p", FileRead::Failed("denied".into())).unwrap_err();
    assert_eq!(
        error,
        ConfigError::Read {
            path: "p".into(),
            source: "denied".into()
        }
    );
    assert_eq!(error.text(), "failed to read p: denied");
}

#[test]
fn temperatures_are_off_on_windows_unless_asked_for() {
    let mut config = FileConfig::default();
    apply_add(&mut config, "max-processes", "9", "windows").expect("valid");
    let collector = config.collector.as_ref().expect("collector section");
    assert!(!collector.collect_temperatures);
    apply_add(&mut config, "collect-temperatures", "true", "windows").expect("valid");
    assert!(config.collector.as_ref().expect("section").collect_temperatures);
    apply_remove(&mut config, "collect-temperatures", None, "windows").expect("known");
    assert!(!config.collector.as_ref().expect("section").collect_temperatures);
    apply_remove(&mut config, "collect-temperatures", None, "macos").expect("known");
    assert!(config.collector.as_ref().expect("section").collect_temperatures);
}
