//! What each key of the settings sets.
use vstd::prelude::*;
use vstd::string::*;
use crate::alerts::matcher::valid_key;
use crate::config::{default_collector, duration_of, size_of_text, CollectorView};
use crate::number::{reading_of, Reading};
use crate::settings::{
    add_as, add_setting, pressure_of, remove_setting, setting_of, with_cadence, with_toggle,
    AlertsView, Cadence, DaemonConfig, Rule, Setting, Settings, Toggle,
};
use crate::text::{bool_of, first_index, trimmed, unsigned_of};
use crate::time::Duration;

verus! {

/// The keys are different texts, so each names its own setting.
proof fn lemma_keys()
    ensures
        setting_of("interval"@) == Some(Setting::Interval),
        setting_of("history"@) == Some(Setting::History),
        setting_of("detach"@) == Some(Setting::Detach),
        setting_of("process-interval"@) == Some(Setting::Cadence(Cadence::Process)),
        setting_of("disk-interval"@) == Some(Setting::Cadence(Cadence::Disk)),
        setting_of("disk-storage-interval"@) == Some(Setting::Cadence(Cadence::DiskStorage)),
        setting_of("network-interval"@) == Some(Setting::Cadence(Cadence::Network)),
        setting_of("temp-interval"@) == Some(Setting::Cadence(Cadence::Temperature)),
        setting_of("battery-interval"@) == Some(Setting::Cadence(Cadence::Battery)),
        setting_of("gpu-interval"@) == Some(Setting::Cadence(Cadence::Gpu)),
        setting_of("drive-interval"@) == Some(Setting::Cadence(Cadence::Drive)),
        setting_of("cpu-freq-interval"@) == Some(Setting::Cadence(Cadence::CpuFrequency)),
        setting_of("process-boost"@) == Some(Setting::ProcessBoost),
        setting_of("max-processes"@) == Some(Setting::MaxProcesses),
        setting_of("collect-processes"@) == Some(Setting::Toggle(Toggle::Processes)),
        setting_of("collect-disks"@) == Some(Setting::Toggle(Toggle::Disks)),
        setting_of("collect-networks"@) == Some(Setting::Toggle(Toggle::Networks)),
        setting_of("collect-temperatures"@) == Some(Setting::Toggle(Toggle::Temperatures)),
        setting_of("collect-battery"@) == Some(Setting::Toggle(Toggle::Battery)),
        setting_of("collect-gpu"@) == Some(Setting::Toggle(Toggle::Gpu)),
        setting_of("collect-drives"@) == Some(Setting::Toggle(Toggle::Drives)),
        setting_of("process-disk-io"@) == Some(Setting::Toggle(Toggle::ProcessDiskIo)),
        setting_of("process-groups"@) == Some(Setting::Toggle(Toggle::ProcessGroups)),
        setting_of("dedupe-disks"@) == Some(Setting::Toggle(Toggle::DedupeDisks)),
        setting_of("per-core-cpu"@) == Some(Setting::Toggle(Toggle::PerCoreCpu)),
        setting_of("alert-app-cpu"@) == Some(Setting::Percent(Rule::AppCpu)),
        setting_of("alert-app-mem"@) == Some(Setting::Percent(Rule::AppMem)),
        setting_of("alert-cpu"@) == Some(Setting::Percent(Rule::Cpu)),
        setting_of("alert-mem"@) == Some(Setting::Percent(Rule::Mem)),
        setting_of("alert-mem-bytes"@) == Some(Setting::MemBytes),
        setting_of("alert-app-mem-bytes"@) == Some(Setting::AppMemBytes),
        setting_of("alert-disk"@) == Some(Setting::Percent(Rule::Disk)),
        setting_of("alert-cooldown"@) == Some(Setting::Cooldown),
        setting_of("alert-pressure"@) == Some(Setting::Pressure),
        setting_of("alert-template"@) == Some(Setting::Template),
{
    reveal_strlit("interval");
    reveal_strlit("history");
    reveal_strlit("detach");
    reveal_strlit("process-interval");
    reveal_strlit("disk-interval");
    reveal_strlit("disk-storage-interval");
    reveal_strlit("network-interval");
    reveal_strlit("temp-interval");
    reveal_strlit("battery-interval");
    reveal_strlit("gpu-interval");
    reveal_strlit("drive-interval");
    reveal_strlit("cpu-freq-interval");
    reveal_strlit("process-boost");
    reveal_strlit("max-processes");
    reveal_strlit("collect-processes");
    reveal_strlit("collect-disks");
    reveal_strlit("collect-networks");
    reveal_strlit("collect-temperatures");
    reveal_strlit("collect-battery");
    reveal_strlit("collect-gpu");
    reveal_strlit("collect-drives");
    reveal_strlit("process-disk-io");
    reveal_strlit("process-groups");
    reveal_strlit("dedupe-disks");
    reveal_strlit("per-core-cpu");
    reveal_strlit("alert-app-cpu");
    reveal_strlit("alert-app-mem");
    reveal_strlit("alert-cpu");
    reveal_strlit("alert-mem");
    reveal_strlit("alert-mem-bytes");
    reveal_strlit("alert-app-mem-bytes");
    reveal_strlit("alert-disk");
    reveal_strlit("alert-cooldown");
    reveal_strlit("alert-pressure");
    reveal_strlit("alert-template");
    assert("interval"@.len() == 8);
    assert("history"@.len() == 7);
    assert("detach"@.len() == 6);
    assert("process-interval"@.len() == 16);
    assert("disk-interval"@.len() == 13);
    assert("disk-storage-interval"@.len() == 21);
    assert("network-interval"@.len() == 16);
    assert("temp-interval"@.len() == 13);
    assert("battery-interval"@.len() == 16);
    assert("gpu-interval"@.len() == 12);
    assert("drive-interval"@.len() == 14);
    assert("cpu-freq-interval"@.len() == 17);
    assert("process-boost"@.len() == 13);
    assert("max-processes"@.len() == 13);
    assert("collect-processes"@.len() == 17);
    assert("collect-disks"@.len() == 13);
    assert("collect-networks"@.len() == 16);
    assert("collect-temperatures"@.len() == 20);
    assert("collect-battery"@.len() == 15);
    assert("collect-gpu"@.len() == 11);
    assert("collect-drives"@.len() == 14);
    assert("process-disk-io"@.len() == 15);
    assert("process-groups"@.len() == 14);
    assert("dedupe-disks"@.len() == 12);
    assert("per-core-cpu"@.len() == 12);
    assert("alert-app-cpu"@.len() == 13);
    assert("alert-app-mem"@.len() == 13);
    assert("alert-cpu"@.len() == 9);
    assert("alert-mem"@.len() == 9);
    assert("alert-mem-bytes"@.len() == 15);
    assert("alert-app-mem-bytes"@.len() == 19);
    assert("alert-disk"@.len() == 10);
    assert("alert-cooldown"@.len() == 14);
    assert("alert-pressure"@.len() == 14);
    assert("alert-template"@.len() == 14);
    assert("network-interval"@[0] != "process-interval"@[0]);
    assert("temp-interval"@[0] != "disk-interval"@[0]);
    assert("battery-interval"@[0] != "process-interval"@[0]);
    assert("battery-interval"@[0] != "network-interval"@[0]);
    assert("process-boost"@[0] != "disk-interval"@[0]);
    assert("process-boost"@[0] != "temp-interval"@[0]);
    assert("max-processes"@[0] != "disk-interval"@[0]);
    assert("max-processes"@[0] != "temp-interval"@[0]);
    assert("max-processes"@[0] != "process-boost"@[0]);
    assert("collect-processes"@[1] != "cpu-freq-interval"@[1]);
    assert("collect-disks"@[0] != "disk-interval"@[0]);
    assert("collect-disks"@[0] != "temp-interval"@[0]);
    assert("collect-disks"@[0] != "process-boost"@[0]);
    assert("collect-disks"@[0] != "max-processes"@[0]);
    assert("collect-networks"@[0] != "process-interval"@[0]);
    assert("collect-networks"@[0] != "network-interval"@[0]);
    assert("collect-networks"@[0] != "battery-interval"@[0]);
    assert("collect-drives"@[0] != "drive-interval"@[0]);
    assert("process-disk-io"@[0] != "collect-battery"@[0]);
    assert("process-groups"@[0] != "drive-interval"@[0]);
    assert("process-groups"@[0] != "collect-drives"@[0]);
    assert("dedupe-disks"@[0] != "gpu-interval"@[0]);
    assert("per-core-cpu"@[0] != "gpu-interval"@[0]);
    assert("per-core-cpu"@[0] != "dedupe-disks"@[0]);
    assert("alert-app-cpu"@[0] != "disk-interval"@[0]);
    assert("alert-app-cpu"@[0] != "temp-interval"@[0]);
    assert("alert-app-cpu"@[0] != "process-boost"@[0]);
    assert("alert-app-cpu"@[0] != "max-processes"@[0]);
    assert("alert-app-cpu"@[0] != "collect-disks"@[0]);
    assert("alert-app-mem"@[0] != "disk-interval"@[0]);
    assert("alert-app-mem"@[0] != "temp-interval"@[0]);
    assert("alert-app-mem"@[0] != "process-boost"@[0]);
    assert("alert-app-mem"@[0] != "max-processes"@[0]);
    assert("alert-app-mem"@[0] != "collect-disks"@[0]);
    assert("alert-app-mem"@[10] != "alert-app-cpu"@[10]);
    assert("alert-mem"@[6] != "alert-cpu"@[6]);
    assert("alert-mem-bytes"@[0] != "collect-battery"@[0]);
    assert("alert-mem-bytes"@[0] != "process-disk-io"@[0]);
    assert("alert-cooldown"@[0] != "drive-interval"@[0]);
    assert("alert-cooldown"@[0] != "collect-drives"@[0]);
    assert("alert-cooldown"@[0] != "process-groups"@[0]);
    assert("alert-pressure"@[0] != "drive-interval"@[0]);
    assert("alert-pressure"@[0] != "collect-drives"@[0]);
    assert("alert-pressure"@[0] != "process-groups"@[0]);
    assert("alert-pressure"@[6] != "alert-cooldown"@[6]);
    assert("alert-template"@[0] != "drive-interval"@[0]);
    assert("alert-template"@[0] != "collect-drives"@[0]);
    assert("alert-template"@[0] != "process-groups"@[0]);
    assert("alert-template"@[6] != "alert-cooldown"@[6]);
    assert("alert-template"@[6] != "alert-pressure"@[6]);
}

/// Whether a setting is accepted and gives these settings.
pub open spec fn sets(
    s: Settings,
    target: Seq<char>,
    key: Seq<char>,
    value: Seq<char>,
    after: Settings,
) -> bool {
    match add_setting(s, target, key, value) {
        Ok((given, _)) => given == after,
        Err(_) => false,
    }
}

/// The collector's settings in a file, or the builtin ones where it has none.
pub open spec fn in_file(s: Settings, target: Seq<char>) -> CollectorView {
    if s.collector is Some {
        s.collector->0
    } else {
        default_collector(target)
    }
}

/// A key that takes a duration sets its own field to it, and nothing else. A time
/// between samples must not be zero; what is no duration sets nothing.
pub proof fn law_keys_with_a_duration(
    s: Settings,
    target: Seq<char>,
    value: Seq<char>,
    ms: nat,
)
    requires
        duration_of(value) == Ok::<nat, Seq<char>>(ms),
        ms <= u64::MAX,
    ensures
        ({
            let d = Duration { nanos: (ms * 1_000_000) as u128 };
            let c = in_file(s, target);
            &&& ms > 0 ==> sets(
                s,
                target,
                "interval"@,
                value,
                (Settings { daemon: DaemonConfig { interval: Some(d), ..s.daemon }, ..s }),
            )
            &&& ms == 0 ==> add_setting(s, target, "interval"@, value) is Err
            &&& sets(
                s,
                target,
                "history"@,
                value,
                (Settings { daemon: DaemonConfig { history: Some(d), ..s.daemon }, ..s }),
            )
            &&& sets(
                s,
                target,
                "alert-cooldown"@,
                value,
                (Settings { alerts: AlertsView { cooldown: Some(d), ..s.alerts }, ..s }),
            )
            &&& sets(
                s,
                target,
                "process-interval"@,
                value,
                (Settings { collector: Some(CollectorView { process_refresh_interval: d, ..c }), ..s }),
            )
            &&& sets(
                s,
                target,
                "disk-interval"@,
                value,
                (Settings { collector: Some(CollectorView { disk_io_refresh_interval: d, ..c }), ..s }),
            )
            &&& sets(
                s,
                target,
                "disk-storage-interval"@,
                value,
                (Settings { collector: Some(CollectorView { disk_storage_refresh_interval: d, ..c }), ..s }),
            )
            &&& sets(
                s,
                target,
                "network-interval"@,
                value,
                (Settings { collector: Some(CollectorView { network_refresh_interval: d, ..c }), ..s }),
            )
            &&& sets(
                s,
                target,
                "temp-interval"@,
                value,
                (Settings { collector: Some(CollectorView { temperature_refresh_interval: d, ..c }), ..s }),
            )
            &&& sets(
                s,
                target,
                "cpu-freq-interval"@,
                value,
                (Settings { collector: Some(CollectorView { cpu_frequency_refresh_interval: d, ..c }), ..s }),
            )
            &&& sets(
                s,
                target,
                "battery-interval"@,
                value,
                (Settings { collector: Some(CollectorView { battery_refresh_interval: d, ..c }), ..s }),
            )
            &&& sets(
                s,
                target,
                "gpu-interval"@,
                value,
                (Settings { collector: Some(CollectorView { gpu_refresh_interval: d, ..c }), ..s }),
            )
            &&& sets(
                s,
                target,
                "drive-interval"@,
                value,
                (Settings { collector: Some(CollectorView { drive_refresh_interval: d, ..c }), ..s }),
            )
        }),
{
    lemma_keys();
    reveal(add_as);
    reveal(with_cadence);
}

/// A key that takes a truth value sets its own field to it, and nothing else.
pub proof fn law_keys_with_a_flag(s: Settings, target: Seq<char>, value: Seq<char>, on: bool)
    requires
        bool_of(trimmed(value)) == Some(on),
    ensures
        ({
            let c = in_file(s, target);
            &&& sets(
                s,
                target,
                "detach"@,
                value,
                (Settings { daemon: DaemonConfig { detach: Some(on), ..s.daemon }, ..s }),
            )
            &&& sets(
                s,
                target,
                "alert-template"@,
                value,
                (Settings { alerts: AlertsView { template: Some(on), ..s.alerts }, ..s }),
            )
            &&& sets(
                s,
                target,
                "collect-processes"@,
                value,
                (Settings { collector: Some(CollectorView { collect_processes: on, ..c }), ..s }),
            )
            &&& sets(
                s,
                target,
                "collect-disks"@,
                value,
                (Settings { collector: Some(CollectorView { collect_disks: on, ..c }), ..s }),
            )
            &&& sets(
                s,
                target,
                "collect-networks"@,
                value,
                (Settings { collector: Some(CollectorView { collect_networks: on, ..c }), ..s }),
            )
            &&& sets(
                s,
                target,
                "collect-temperatures"@,
                value,
                (Settings { collector: Some(CollectorView { collect_temperatures: on, ..c }), ..s }),
            )
            &&& sets(
                s,
                target,
                "collect-battery"@,
                value,
                (Settings { collector: Some(CollectorView { collect_battery: on, ..c }), ..s }),
            )
            &&& sets(
                s,
                target,
                "collect-gpu"@,
                value,
                (Settings { collector: Some(CollectorView { collect_gpu: on, ..c }), ..s }),
            )
            &&& sets(
                s,
                target,
                "collect-drives"@,
                value,
                (Settings { collector: Some(CollectorView { collect_drives: on, ..c }), ..s }),
            )
            &&& sets(
                s,
                target,
                "process-disk-io"@,
                value,
                (Settings { collector: Some(CollectorView { collect_process_disk_io: on, ..c }), ..s }),
            )
            &&& sets(
                s,
                target,
                "process-groups"@,
                value,
                (Settings { collector: Some(CollectorView { collect_process_groups: on, ..c }), ..s }),
            )
            &&& sets(
                s,
                target,
                "dedupe-disks"@,
                value,
                (Settings { collector: Some(CollectorView { dedupe_disks: on, ..c }), ..s }),
            )
            &&& sets(
                s,
                target,
                "per-core-cpu"@,
                value,
                (Settings { collector: Some(CollectorView { per_core_cpu: on, ..c }), ..s }),
            )
        }),
{
    lemma_keys();
    reveal(add_as);
    reveal(with_toggle);
}

/// The percentage that a reading is kept as: no number at all counts as zero.
pub open spec fn kept_as(r: Reading) -> i64 {
    match r {
        Reading::Millionths(v) => v,
        Reading::NotANumber => 0,
    }
}

/// A percentage sets that of its own rule, and nothing else.
pub proof fn law_keys_with_a_percentage(
    s: Settings,
    target: Seq<char>,
    value: Seq<char>,
    r: Reading,
)
    requires
        first_index(value, '=') >= value.len(),
        reading_of(trimmed(value)) == Some(r),
    ensures
        ({
            let v = Some(kept_as(r));
            &&& sets(
                s,
                target,
                "alert-cpu"@,
                value,
                (Settings { alerts: AlertsView { cpu: v, ..s.alerts }, ..s }),
            )
            &&& sets(
                s,
                target,
                "alert-mem"@,
                value,
                (Settings { alerts: AlertsView { mem: v, ..s.alerts }, ..s }),
            )
            &&& sets(
                s,
                target,
                "alert-app-cpu"@,
                value,
                (Settings { alerts: AlertsView { app_cpu: v, ..s.alerts }, ..s }),
            )
            &&& sets(
                s,
                target,
                "alert-app-mem"@,
                value,
                (Settings { alerts: AlertsView { app_mem: v, ..s.alerts }, ..s }),
            )
            &&& sets(
                s,
                target,
                "alert-disk"@,
                value,
                (Settings { alerts: AlertsView { disk: v, ..s.alerts }, ..s }),
            )
        }),
{
    lemma_keys();
    reveal(add_as);
}

/// A name, an equals sign and a percentage set the percentage of that name in the
/// key's own rule, and nothing else.
pub proof fn law_keys_with_a_name(
    s: Settings,
    target: Seq<char>,
    value: Seq<char>,
    name: Seq<char>,
    r: Reading,
)
    requires
        0 <= first_index(value, '=') < value.len(),
        name == trimmed(value.take(first_index(value, '='))),
        name.len() > 0,
        valid_key(name),
        reading_of(trimmed(value.skip(first_index(value, '=') + 1))) == Some(r),
    ensures
        ({
            let v = kept_as(r);
            let a = s.alerts;
            &&& sets(
                s,
                target,
                "alert-cpu"@,
                value,
                (Settings {
                    alerts: AlertsView { cpu_overrides: a.cpu_overrides.insert(name, v), ..a },
                    ..s
                }),
            )
            &&& sets(
                s,
                target,
                "alert-mem"@,
                value,
                (Settings {
                    alerts: AlertsView { mem_overrides: a.mem_overrides.insert(name, v), ..a },
                    ..s
                }),
            )
            &&& sets(
                s,
                target,
                "alert-app-cpu"@,
                value,
                (Settings {
                    alerts: AlertsView { app_cpu_overrides: a.app_cpu_overrides.insert(name, v), ..a },
                    ..s
                }),
            )
            &&& sets(
                s,
                target,
                "alert-app-mem"@,
                value,
                (Settings {
                    alerts: AlertsView { app_mem_overrides: a.app_mem_overrides.insert(name, v), ..a },
                    ..s
                }),
            )
            &&& sets(
                s,
                target,
                "alert-disk"@,
                value,
                (Settings {
                    alerts: AlertsView { disk_overrides: a.disk_overrides.insert(name, v), ..a },
                    ..s
                }),
            )
        }),
{
    lemma_keys();
    reveal(add_as);
}

/// The keys of the byte thresholds, of the pressure, of the number of processes and
/// of the busy cores each set their own field, and nothing else.
pub proof fn law_other_keys(s: Settings, target: Seq<char>, value: Seq<char>)
    ensures
        ({
            let c = in_file(s, target);
            let size = size_of_text(value);
            let pressure = pressure_of(value);
            let number = unsigned_of(trimmed(value));
            let cores = reading_of(trimmed(value));
            &&& size is Ok ==> sets(
                s,
                target,
                "alert-mem-bytes"@,
                value,
                (Settings {
                    alerts: AlertsView { mem_bytes: Some(size->Ok_0 as u64), ..s.alerts },
                    ..s
                }),
            )
            &&& size is Ok ==> sets(
                s,
                target,
                "alert-app-mem-bytes"@,
                value,
                (Settings {
                    alerts: AlertsView { app_mem_bytes: Some(size->Ok_0 as u64), ..s.alerts },
                    ..s
                }),
            )
            &&& pressure is Ok ==> sets(
                s,
                target,
                "alert-pressure"@,
                value,
                (Settings {
                    alerts: AlertsView { pressure: Some(pressure->Ok_0), ..s.alerts },
                    ..s
                }),
            )
            &&& number is Some && number->0 <= usize::MAX ==> sets(
                s,
                target,
                "max-processes"@,
                value,
                (Settings {
                    collector: Some(CollectorView { max_processes: number->0 as usize, ..c }),
                    ..s
                }),
            )
            &&& number is None ==> add_setting(s, target, "max-processes"@, value) is Err
            &&& cores is Some && cores->0 is Millionths && cores->0->Millionths_0 >= 0 ==> sets(
                s,
                target,
                "process-boost"@,
                value,
                (Settings {
                    collector: Some(
                        CollectorView {
                            process_boost_cpu_cores: Some(cores->0->Millionths_0 as u64),
                            ..c
                        },
                    ),
                    ..s
                }),
            )
            &&& cores is None || cores->0 is NotANumber || cores->0->Millionths_0 < 0
                ==> add_setting(s, target, "process-boost"@, value) is Err
        }),
{
    lemma_keys();
    reveal(add_as);
}

/// Whether a setting is taken back and gives these settings.
pub open spec fn resets(s: Settings, target: Seq<char>, key: Seq<char>, after: Settings) -> bool {
    match remove_setting(s, target, key, None) {
        Ok((given, _)) => given == after,
        Err(_) => false,
    }
}

/// Taking a setting back gives its own field its builtin value, or none where the
/// file then has none, and changes nothing else.
pub proof fn law_keys_taken_back(s: Settings, target: Seq<char>)
    ensures
        ({
            let a = s.alerts;
            let d = s.daemon;
            &&& resets(
                s,
                target,
                "interval"@,
                (Settings { daemon: DaemonConfig { interval: None, ..d }, ..s }),
            )
            &&& resets(
                s,
                target,
                "history"@,
                (Settings { daemon: DaemonConfig { history: None, ..d }, ..s }),
            )
            &&& resets(
                s,
                target,
                "detach"@,
                (Settings { daemon: DaemonConfig { detach: None, ..d }, ..s }),
            )
            &&& resets(
                s,
                target,
                "alert-cpu"@,
                (Settings { alerts: AlertsView { cpu: None, ..a }, ..s }),
            )
            &&& resets(
                s,
                target,
                "alert-mem"@,
                (Settings { alerts: AlertsView { mem: None, ..a }, ..s }),
            )
            &&& resets(
                s,
                target,
                "alert-app-cpu"@,
                (Settings { alerts: AlertsView { app_cpu: None, ..a }, ..s }),
            )
            &&& resets(
                s,
                target,
                "alert-app-mem"@,
                (Settings { alerts: AlertsView { app_mem: None, ..a }, ..s }),
            )
            &&& resets(
                s,
                target,
                "alert-disk"@,
                (Settings { alerts: AlertsView { disk: None, ..a }, ..s }),
            )
            &&& resets(
                s,
                target,
                "alert-mem-bytes"@,
                (Settings { alerts: AlertsView { mem_bytes: None, ..a }, ..s }),
            )
            &&& resets(
                s,
                target,
                "alert-app-mem-bytes"@,
                (Settings { alerts: AlertsView { app_mem_bytes: None, ..a }, ..s }),
            )
            &&& resets(
                s,
                target,
                "alert-cooldown"@,
                (Settings { alerts: AlertsView { cooldown: None, ..a }, ..s }),
            )
            &&& resets(
                s,
                target,
                "alert-pressure"@,
                (Settings { alerts: AlertsView { pressure: None, ..a }, ..s }),
            )
            &&& resets(
                s,
                target,
                "alert-template"@,
                (Settings { alerts: AlertsView { template: None, ..a }, ..s }),
            )
        }),
{
    lemma_keys();
    reveal(remove_setting);
}

/// Taking an interval of the collector back gives its own field its builtin value,
/// and changes nothing else.
pub proof fn law_intervals_taken_back(s: Settings, target: Seq<char>)
    ensures
        ({
            let c = in_file(s, target);
            let b = default_collector(target);
            &&& resets(
                s,
                target,
                "process-interval"@,
                (Settings { collector: Some(CollectorView { process_refresh_interval: b.process_refresh_interval, ..c }), ..s }),
            )
            &&& resets(
                s,
                target,
                "disk-interval"@,
                (Settings { collector: Some(CollectorView { disk_io_refresh_interval: b.disk_io_refresh_interval, ..c }), ..s }),
            )
            &&& resets(
                s,
                target,
                "disk-storage-interval"@,
                (Settings { collector: Some(CollectorView { disk_storage_refresh_interval: b.disk_storage_refresh_interval, ..c }), ..s }),
            )
            &&& resets(
                s,
                target,
                "network-interval"@,
                (Settings { collector: Some(CollectorView { network_refresh_interval: b.network_refresh_interval, ..c }), ..s }),
            )
            &&& resets(
                s,
                target,
                "temp-interval"@,
                (Settings { collector: Some(CollectorView { temperature_refresh_interval: b.temperature_refresh_interval, ..c }), ..s }),
            )
            &&& resets(
                s,
                target,
                "cpu-freq-interval"@,
                (Settings { collector: Some(CollectorView { cpu_frequency_refresh_interval: b.cpu_frequency_refresh_interval, ..c }), ..s }),
            )
            &&& resets(
                s,
                target,
                "battery-interval"@,
                (Settings { collector: Some(CollectorView { battery_refresh_interval: b.battery_refresh_interval, ..c }), ..s }),
            )
            &&& resets(
                s,
                target,
                "gpu-interval"@,
                (Settings { collector: Some(CollectorView { gpu_refresh_interval: b.gpu_refresh_interval, ..c }), ..s }),
            )
            &&& resets(
                s,
                target,
                "drive-interval"@,
                (Settings { collector: Some(CollectorView { drive_refresh_interval: b.drive_refresh_interval, ..c }), ..s }),
            )
        }),
{
    lemma_keys();
    reveal(remove_setting);
    reveal(with_cadence);
}

/// A switch changes its own field.
proof fn lemma_switches(c: CollectorView, b: bool)
    ensures
        with_toggle(c, Toggle::Processes, b) == (CollectorView { collect_processes: b, ..c }),
        with_toggle(c, Toggle::Disks, b) == (CollectorView { collect_disks: b, ..c }),
        with_toggle(c, Toggle::Networks, b) == (CollectorView { collect_networks: b, ..c }),
        with_toggle(c, Toggle::Temperatures, b) == (CollectorView { collect_temperatures: b, ..c }),
        with_toggle(c, Toggle::Battery, b) == (CollectorView { collect_battery: b, ..c }),
        with_toggle(c, Toggle::Gpu, b) == (CollectorView { collect_gpu: b, ..c }),
        with_toggle(c, Toggle::Drives, b) == (CollectorView { collect_drives: b, ..c }),
        with_toggle(c, Toggle::ProcessDiskIo, b) == (CollectorView { collect_process_disk_io: b, ..c }),
        with_toggle(c, Toggle::ProcessGroups, b) == (CollectorView { collect_process_groups: b, ..c }),
        with_toggle(c, Toggle::DedupeDisks, b) == (CollectorView { dedupe_disks: b, ..c }),
        with_toggle(c, Toggle::PerCoreCpu, b) == (CollectorView { per_core_cpu: b, ..c }),
{
    reveal(with_toggle);
}

/// Taking another setting of the collector back gives its own field its builtin
/// value, and changes nothing else.
pub proof fn law_collector_keys_taken_back(s: Settings, target: Seq<char>)
    ensures
        ({
            let c = in_file(s, target);
            let b = default_collector(target);
            &&& resets(
                s,
                target,
                "collect-processes"@,
                (Settings { collector: Some(CollectorView { collect_processes: b.collect_processes, ..c }), ..s }),
            )
            &&& resets(
                s,
                target,
                "collect-disks"@,
                (Settings { collector: Some(CollectorView { collect_disks: b.collect_disks, ..c }), ..s }),
            )
            &&& resets(
                s,
                target,
                "collect-networks"@,
                (Settings { collector: Some(CollectorView { collect_networks: b.collect_networks, ..c }), ..s }),
            )
            &&& resets(
                s,
                target,
                "collect-temperatures"@,
                (Settings { collector: Some(CollectorView { collect_temperatures: b.collect_temperatures, ..c }), ..s }),
            )
            &&& resets(
                s,
                target,
                "collect-battery"@,
                (Settings { collector: Some(CollectorView { collect_battery: b.collect_battery, ..c }), ..s }),
            )
            &&& resets(
                s,
                target,
                "collect-gpu"@,
                (Settings { collector: Some(CollectorView { collect_gpu: b.collect_gpu, ..c }), ..s }),
            )
            &&& resets(
                s,
                target,
                "collect-drives"@,
                (Settings { collector: Some(CollectorView { collect_drives: b.collect_drives, ..c }), ..s }),
            )
            &&& resets(
                s,
                target,
                "process-disk-io"@,
                (Settings { collector: Some(CollectorView { collect_process_disk_io: b.collect_process_disk_io, ..c }), ..s }),
            )
            &&& resets(
                s,
                target,
                "process-groups"@,
                (Settings { collector: Some(CollectorView { collect_process_groups: b.collect_process_groups, ..c }), ..s }),
            )
            &&& resets(
                s,
                target,
                "dedupe-disks"@,
                (Settings { collector: Some(CollectorView { dedupe_disks: b.dedupe_disks, ..c }), ..s }),
            )
            &&& resets(
                s,
                target,
                "per-core-cpu"@,
                (Settings { collector: Some(CollectorView { per_core_cpu: b.per_core_cpu, ..c }), ..s }),
            )
            &&& resets(
                s,
                target,
                "process-boost"@,
                (Settings { collector: Some(CollectorView { process_boost_cpu_cores: b.process_boost_cpu_cores, ..c }), ..s }),
            )
            &&& resets(
                s,
                target,
                "max-processes"@,
                (Settings { collector: Some(CollectorView { max_processes: b.max_processes, ..c }), ..s }),
            )
        }),
{
    lemma_keys();
    reveal(remove_setting);
    lemma_switches(in_file(s, target), true);
    lemma_switches(in_file(s, target), false);
}

/// The builtin settings: everything but the bytes that processes move is collected,
/// and on Windows but the temperatures; processes, volumes and interfaces are read
/// in every round and the rest at longer intervals; fifty processes are kept, and
/// two busy cores make processes read at once.
pub proof fn law_builtin_settings(target: Seq<char>)
    ensures
        ({
            let b = default_collector(target);
            &&& b.collect_processes && b.collect_disks && b.collect_networks && b.collect_battery
            &&& b.collect_gpu && b.collect_drives && b.collect_process_groups && b.dedupe_disks
            &&& b.per_core_cpu && !b.collect_process_disk_io
            &&& b.collect_temperatures <==> target != "windows"@
            &&& b.max_processes == 50
            &&& b.process_boost_cpu_cores == Some(2_000_000u64)
            &&& b.process_refresh_interval.nanos == 0
            &&& b.disk_io_refresh_interval.nanos == 0
            &&& b.network_refresh_interval.nanos == 0
            &&& b.disk_storage_refresh_interval.nanos == 60_000_000_000
            &&& b.cpu_frequency_refresh_interval.nanos == 30_000_000_000
            &&& b.battery_refresh_interval.nanos == 30_000_000_000
            &&& b.temperature_refresh_interval.nanos == 15_000_000_000
            &&& b.gpu_refresh_interval.nanos == 10_000_000_000
            &&& b.drive_refresh_interval.nanos == 10_000_000_000
            &&& b.collect_timeout.nanos == 2_000_000_000
            &&& b.labels.len() == 0
        }),
{
    reveal(default_collector);
}

} // verus!
