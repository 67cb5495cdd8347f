use zstats::client::DaemonStream;
use zstats::daemon::{
    attach_reply, farewell, follow, key_to_exit, parse_command, parse_history_header, replay_step,
    socket_plan, ClientCommand, Entry, HistoryBuffer, LiveAction, LiveEvent, LiveExit, Replay,
    SocketPlan,
};
use zstats::error::{ClientError, CollectError, ConfigError, SchedulerError, SinkError};
use zstats::monitor::{
    escape_applescript, notification_command, ReloadState, SourceTimes, RELOAD_CHECK_EVERY,
};
use zstats::paths::{
    config_path, data_dir, default_dir, join, log_path, socket_path, template_path,
};
use zstats::scheduler::{Scheduler, StdoutSink};
use zstats::time::Duration;

fn entry(second: i64) -> Entry {
    Entry {
        second,
        line: format!("at {second}"),
    }
}

#[test]
fn history_prunes_by_retention_span() {
    let mut buffer = HistoryBuffer::new(Duration::from_secs(300));
    // One snapshot per second for 400s: only the last ~300s must remain
    for second in 0..400 {
        buffer.push(entry(second));
    }

    let newest = buffer.second(buffer.len() - 1);
    let oldest = buffer.second(0);
    assert_eq!(newest, 399);
    assert!(newest - oldest <= 300);
    assert!(buffer.len() >= 300);
}

#[test]
fn the_newest_entry_is_always_kept() {
    let mut history = HistoryBuffer::new(Duration::zero());
    history.push(entry(1));
    history.push(entry(50));
    assert_eq!(history.to_json_lines(), vec!["at 50".to_string()]);
    // A clock that went back prunes nothing
    history.push(entry(40));
    assert_eq!(history.len(), 2);
}

#[test]
fn commands_are_read_as_words() {
    assert_eq!(parse_command("STOP\n"), ClientCommand::Stop);
    assert_eq!(parse_command(" ATTACH"), ClientCommand::Attach);
    assert_eq!(parse_command("stop"), ClientCommand::Other);
    assert_eq!(parse_command(""), ClientCommand::Other);
}

#[test]
fn an_attached_client_is_sent_the_history_first() {
    let reply = attach_reply(&vec!["{a}".to_string(), "{b}".to_string()]);
    assert_eq!(reply, "HISTORY 2\n{a}\n{b}\n");
    assert_eq!(attach_reply(&Vec::new()), "HISTORY 0\n");
    let header = reply.lines().next().unwrap();
    assert_eq!(parse_history_header(header), Some(2));
    assert_eq!(parse_history_header("HISTORY  7 "), Some(7));
    assert_eq!(parse_history_header("HISTORY +7"), Some(7));
    assert_eq!(parse_history_header("HISTORY -7"), None);
    assert_eq!(parse_history_header("HISTORY"), None);
    assert_eq!(parse_history_header("HISTORY 18446744073709551616"), None);
}

#[test]
fn a_stream_counts_its_history_down() {
    let mut stream = DaemonStream::attach("HISTORY 2").expect("attach");
    assert_eq!(stream.history_len(), 2);
    assert_eq!(stream.history_remaining(), 2);
    stream.next();
    assert_eq!(stream.history_remaining(), 1);
    stream.next();
    assert_eq!(stream.history_remaining(), 0);
    stream.next();
    assert_eq!(stream.history_remaining(), 0);
    assert_eq!(stream.history_len(), 2);
}

#[test]
fn a_reply_outside_the_protocol_is_an_error() {
    let error = DaemonStream::attach("WHAT").unwrap_err();
    assert_eq!(
        error,
        ClientError::Protocol {
            reply: "WHAT".into()
        }
    );
    assert_eq!(error.text(), "unexpected reply from daemon: \"WHAT\"");
    let tabbed = ClientError::Protocol {
        reply: "a\tb".into(),
    };
    assert_eq!(tabbed.text(), "unexpected reply from daemon: \"a\\tb\"");
}

#[test]
fn errors_are_put_in_words() {
    assert_eq!(
        ClientError::Connect {
            path: "/s".into(),
            source: "refused".into()
        }
        .text(),
        "no daemon reachable at /s: refused"
    );
    assert_eq!(
        ClientError::Io { source: "x".into() }.text(),
        "daemon connection failed: x"
    );
    assert_eq!(
        CollectError::System {
            message: "x".into()
        }
        .text(),
        "underlying system call failed: x"
    );
    assert_eq!(CollectError::Timeout.text(), "timeout while collecting");
    assert_eq!(
        CollectError::Partial {
            message: "x".into()
        }
        .text(),
        "partial failure: x"
    );
    assert_eq!(SinkError::Io { source: "x".into() }.text(), "io error: x");
    assert_eq!(
        SinkError::Serde {
            message: "x".into()
        }
        .text(),
        "serialization error: x"
    );
    assert_eq!(
        SinkError::Remote {
            message: "boom".into()
        }
        .text(),
        "remote write failed: boom"
    );
    assert_eq!(SinkError::Timeout.text(), "timeout");
    assert_eq!(
        SchedulerError::AlreadyRunning.text(),
        "scheduler is already running"
    );
    assert_eq!(
        ConfigError::Parse {
            path: "p".into(),
            message: "m".into()
        }
        .text(),
        "failed to parse p: m"
    );
    assert_eq!(
        ConfigError::Write {
            path: "p".into(),
            source: "m".into()
        }
        .text(),
        "failed to write p: m"
    );
}

#[test]
fn a_live_socket_is_never_replaced() {
    assert_eq!(socket_plan(true, true), SocketPlan::Refuse);
    assert_eq!(socket_plan(true, false), SocketPlan::RemoveStale);
    assert_eq!(socket_plan(false, false), SocketPlan::Bind);
}

#[test]
fn keys_leave_the_view() {
    assert_eq!(key_to_exit(b'q'), Some(LiveExit::Quit));
    assert_eq!(key_to_exit(b'Q'), Some(LiveExit::Quit));
    assert_eq!(key_to_exit(b'd'), Some(LiveExit::Detach));
    assert_eq!(key_to_exit(b'x'), None);
    assert_eq!(
        follow(LiveEvent::Interrupt),
        LiveAction::Leave(LiveExit::Quit)
    );
    assert_eq!(
        follow(LiveEvent::Key(b'D')),
        LiveAction::Leave(LiveExit::Detach)
    );
    assert_eq!(follow(LiveEvent::Key(b'x')), LiveAction::Continue);
    assert_eq!(follow(LiveEvent::KeysClosed), LiveAction::Continue);
    assert_eq!(follow(LiveEvent::Line), LiveAction::Show);
    assert_eq!(follow(LiveEvent::Closed), LiveAction::Abandon);
}

#[test]
fn only_the_last_of_the_history_is_shown() {
    assert_eq!(replay_step(0, 2), Replay::Absorb);
    assert_eq!(replay_step(1, 2), Replay::Show);
    assert_eq!(
        farewell(true, "/tmp/l"),
        "zstats daemon closed the connection"
    );
    assert_eq!(
        farewell(false, "/tmp/l"),
        "detached; daemon still running (log: /tmp/l). reattach with `zstats attach`"
    );
}

#[test]
fn settings_are_looked_at_every_thirtieth_round() {
    let seen = SourceTimes {
        config: Some(1),
        template: None,
    };
    let mut state = ReloadState::new(seen);
    for _ in 1..RELOAD_CHECK_EVERY {
        assert!(!state.check_due());
    }
    assert!(state.check_due());
    assert!(!state.check_due());
    assert!(!state.changed(seen));
    let touched = SourceTimes {
        config: Some(1),
        template: Some(2),
    };
    assert!(state.changed(touched));
    assert!(!state.changed(touched));
}

#[test]
fn notifications_are_quoted_for_their_program() {
    assert_eq!(escape_applescript("a\"b\\c"), "a\\\"b\\\\c");
    let (program, args) = notification_command("cpu \"x\"", true);
    assert_eq!(program, "osascript");
    assert_eq!(args[0], "-e");
    assert!(args[1].contains("cpu \\\"x\\\""));
    let (program, args) = notification_command("cpu \"x\"", false);
    assert_eq!(program, "notify-send");
    assert!(args.contains(&"cpu \"x\"".to_string()));
}

#[test]
fn files_stand_in_the_settings_directory() {
    let os = "linux";
    assert_eq!(default_dir(Some("/home/a"), Some("C:\\a"), os), "/home/a/.zstats");
    assert_eq!(default_dir(None, Some("/p"), os), "/p/.zstats");
    assert_eq!(default_dir(None, None, os), "./.zstats");
    assert_eq!(config_path("/d", os), "/d/config.toml");
    assert_eq!(template_path("/d/", os), "/d/template.toml");
    assert_eq!(data_dir("/d", os), "/d/data");
    assert_eq!(join("", "x", os), "x");
    assert_eq!(join("C:", "x", os), "C:/x");
    assert_eq!(join("a\\", "x", os), "a\\/x");
    assert_eq!(socket_path("/tmp", Some("ann"), os), "/tmp/zstats-ann.sock");
    assert!(log_path("/tmp", None, os).ends_with(".log"));
}

#[test]
fn separators_are_those_of_the_system() {
    let os = "windows";
    assert_eq!(default_dir(None, Some("C:\\a"), os), "C:\\a\\.zstats");
    assert_eq!(config_path("C:\\d", os), "C:\\d\\config.toml");
    assert_eq!(template_path("C:\\", os), "C:\\template.toml");
    assert_eq!(data_dir("d/", os), "d/data");
    assert_eq!(join("C:", "x", os), "C:x");
    assert_eq!(join("1:", "x", os), "1:\\x");
    assert_eq!(join("", "x", os), "x");
}

#[test]
fn a_scheduler_starts_once_and_again_after_a_stop() {
    let mut scheduler =
        Scheduler::new(Duration::from_millis(200)).with_sink_write_timeout(Duration::from_secs(1));
    assert_eq!(scheduler.start(), Ok(()));
    assert_eq!(scheduler.start(), Err(SchedulerError::AlreadyRunning));
    assert!(scheduler.stop());
    assert!(!scheduler.stop());
    assert_eq!(scheduler.start(), Ok(()));
    assert!(StdoutSink::pretty().is_pretty());
    assert!(!StdoutSink::new().is_pretty());
}
