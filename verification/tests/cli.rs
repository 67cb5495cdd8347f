use zstats::cli::{
    daemon_args, detached_args, durations_fit, foreground_config, has_config_actions, needs_file, parse_args,
    run_config_actions, serve_plan, take_command, take_config_dir, CliArgs, Command, OutputFormat,
    Request,
};
use zstats::config::CollectorConfig;
use zstats::settings::{DaemonConfig, FileConfig};
use zstats::time::Duration;

fn args(list: &[&str]) -> Vec<String> {
    list.iter().map(|a| a.to_string()).collect()
}

#[test]
fn options_are_read_in_order() {
    assert_eq!(
        parse_args(&args(&["--foreground", "--json"])),
        Ok(Request::Run(CliArgs {
            format: OutputFormat::Json,
            foreground: true
        }))
    );
    assert_eq!(
        parse_args(&args(&["--pretty", "--json"])),
        Ok(Request::Run(CliArgs {
            format: OutputFormat::JsonPretty,
            foreground: false
        }))
    );
    assert_eq!(parse_args(&args(&["-h", "--nope"])), Ok(Request::Help));
    assert_eq!(parse_args(&args(&["--version"])), Ok(Request::Version));
    assert_eq!(
        parse_args(&args(&["--nope", "-h"])),
        Err("unknown argument: --nope (use -h for help)".to_string())
    );
}

#[test]
fn the_settings_directory_is_taken_out() {
    assert_eq!(
        take_config_dir(&args(&["serve", "--config-dir", "/d", "--json"])),
        Ok((Some("/d".to_string()), args(&["serve", "--json"])))
    );
    assert_eq!(
        take_config_dir(&args(&["serve"])),
        Ok((None, args(&["serve"])))
    );
    assert_eq!(
        take_config_dir(&args(&["--config-dir"])),
        Err("--config-dir requires a path".to_string())
    );
}

#[test]
fn actions_change_the_settings() {
    let raw = args(&[
        "-add", "interval=5s", "--add", "alert-cpu", "node=90", "-remove", "history", "-list",
    ]);
    assert!(has_config_actions(&raw));
    let mut config = FileConfig::default();
    let outcome = run_config_actions(&mut config, &raw, "linux");
    assert_eq!(
        outcome.lines,
        args(&[
            "interval = 5s",
            "alert-cpu override: node = 90% (0 disables)",
            "history reset to default",
        ])
    );
    assert!(outcome.modified);
    assert!(outcome.list);
    assert_eq!(outcome.failure, None);
    assert_eq!(config.daemon.interval, Some(Duration::from_secs(5)));
    assert_eq!(config.alerts.cpu_overrides.get("node"), Some(90_000_000));
}

fn failure(list: &[&str]) -> String {
    run_config_actions(&mut FileConfig::default(), &args(list), "linux")
        .failure
        .expect("fails")
}

#[test]
fn a_failed_action_ends_the_others() {
    assert_eq!(failure(&["-add"]), "-add requires <key> <value> (or key=value)");
    assert_eq!(failure(&["-add", "interval"]), "-add interval requires a value");
    assert_eq!(failure(&["-remove"]), "-remove requires <key> [name]");
    assert_eq!(
        failure(&["-list", "serve"]),
        "cannot combine serve with config actions (use -h for help)"
    );
    let mut config = FileConfig::default();
    let outcome = run_config_actions(
        &mut config,
        &args(&["-add", "interval", "0", "-add", "history", "1h"]),
        "linux",
    );
    assert_eq!(
        outcome.failure.as_deref(),
        Some("interval must be greater than 0")
    );
    assert!(!outcome.modified);
    assert_eq!(config.daemon.history, None);
}

#[test]
fn the_first_argument_names_the_mode() {
    assert_eq!(
        take_command(&args(&["attach", "--json"])),
        (Command::Attach, args(&["--json"]))
    );
    assert_eq!(take_command(&args(&["--json"])).0, Command::Live);
    assert_eq!(take_command(&args(&[])).0, Command::Live);
    assert_eq!(take_command(&args(&["stop"])).0, Command::Stop);
    assert_eq!(
        take_command(&args(&["nope"])).0,
        Command::Unknown("nope".to_string())
    );
    assert!(needs_file(&Command::Serve));
    assert!(needs_file(&Command::Live));
    assert!(!needs_file(&Command::Stop));
}

#[test]
fn the_live_view_reads_everything_anew() {
    let config = foreground_config(CollectorConfig::default("linux"));
    assert!(config.temperature_refresh_interval.is_zero());
    assert!(config.disk_storage_refresh_interval.is_zero());
    assert_eq!(config.max_processes, 50);
}

#[test]
fn the_daemon_has_its_own_defaults() {
    let silent = DaemonConfig {
        interval: None,
        history: None,
        detach: None,
    };
    let plan = serve_plan(false, &silent, CollectorConfig::default("linux"));
    assert!(plan.detach);
    assert_eq!(plan.interval, Duration::from_secs(2));
    assert_eq!(plan.history, Duration::from_secs(300));
    assert_eq!(
        plan.config.process_refresh_interval,
        Duration::from_secs(10)
    );
    let plan = serve_plan(true, &silent, CollectorConfig::default("linux"));
    assert!(!plan.detach);
    let set = DaemonConfig {
        interval: Some(Duration::from_secs(7)),
        history: Some(Duration::from_secs(60)),
        detach: Some(false),
    };
    let plan = serve_plan(false, &set, CollectorConfig::default("linux"));
    assert!(!plan.detach);
    assert_eq!(plan.interval, Duration::from_secs(7));
    assert_eq!(plan.history, Duration::from_secs(60));
}

#[test]
fn a_detached_daemon_is_told_to_stay() {
    assert_eq!(
        daemon_args(&args(&["--json", "--config-dir", "/d"])),
        args(&["serve", "--config-dir", "/d", "--foreground"])
    );
    assert_eq!(
        detached_args(&args(&["serve", "--detach"])),
        args(&["serve", "--foreground"])
    );
}

#[test]
fn only_durations_that_are_set_must_fit() {
    let fits = |list: &[&str]| durations_fit(FileConfig::default(), &args(list), "linux");
    let long = "18446744073709551615h";
    assert!(!fits(&["-add", "interval", long]));
    assert!(!fits(&["-list", "-add", "history=18446744073709551615h"]));
    assert!(fits(&["-add", "interval", "5s"]));
    assert!(fits(&["-add", "alert-cpu", long]), "no duration");
    assert!(
        fits(&["-remove", "alert-cpu", "x", "-add", "interval", long]),
        "ended before"
    );
}
