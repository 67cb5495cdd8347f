//! The settings file: what it holds, and how single settings are changed.
use vstd::prelude::*;
use vstd::string::*;
use crate::alerts::matcher::{valid_key, Matcher};
use crate::config::{
    default_collector, duration_in_range, duration_of, format_size, parse_duration, parse_size,
    size_of_text, size_text, CollectorConfig, CollectorView,
};
use crate::number::{read_number, reading_of, tell_again, told_again, Reading};
use crate::overrides::Overrides;
use crate::text::{
    bool_of, chars_of, find_char, first_index, is_text, lowered, parse_bool, parse_unsigned, part,
    string_of, to_lower, trim, trimmed, unsigned_of,
};
use crate::time::{Duration, NANOS_PER_MILLI};

pub use crate::paths::{config_path, default_dir, template_path};

verus! {

/// Which verdict of the kernel on memory pressure is worth an alert.
#[derive(Debug, Clone, Copy, PartialEq, Eq, Structural)]
pub enum PressureAlert {
    Off,
    /// The verdict "warning" and worse
    Warning,
    /// The verdict "critical" alone
    Critical,
}

/// The kernel level at which a setting starts to alert.
pub open spec fn pressure_level(p: PressureAlert) -> Option<u32> {
    match p {
        PressureAlert::Off => None,
        PressureAlert::Warning => Some(2),
        PressureAlert::Critical => Some(4),
    }
}

/// The setting that a text names, or the message for any other text.
pub open spec fn pressure_of(value: Seq<char>) -> Result<PressureAlert, Seq<char>> {
    let v = lowered(trimmed(value));
    if v == "off"@ || v == "false"@ || v == "0"@ || v == "none"@ {
        Ok(PressureAlert::Off)
    } else if v == "warning"@ || v == "warn"@ || v == "true"@ || v == "1"@ {
        Ok(PressureAlert::Warning)
    } else if v == "critical"@ || v == "crit"@ {
        Ok(PressureAlert::Critical)
    } else {
        Err(v + " (use off|warning|critical)"@)
    }
}

impl PressureAlert {
    /// The kernel level at which this setting starts to alert; none when off.
    pub fn level(self) -> (r: Option<u32>)
        ensures
            r == pressure_level(self),
    {
        match self {
            PressureAlert::Off => None,
            PressureAlert::Warning => Some(2),
            PressureAlert::Critical => Some(4),
        }
    }

    /// The setting that a truth value in its place stands for.
    pub fn from_bool(on: bool) -> (r: PressureAlert)
        ensures
            r == if on {
                PressureAlert::Warning
            } else {
                PressureAlert::Off
            },
    {
        if on {
            PressureAlert::Warning
        } else {
            PressureAlert::Off
        }
    }

    /// Reads the setting from its name, or from a word for a truth value.
    pub fn parse(value: &str) -> (r: Result<PressureAlert, String>)
        ensures
            r is Ok ==> pressure_of(value@) == Ok::<PressureAlert, Seq<char>>(r->Ok_0),
            r is Err ==> pressure_of(value@) == Err::<PressureAlert, Seq<char>>(r->Err_0@),
    {
        let v = to_lower(&trim(&chars_of(value)));
        if is_text(&v, "off") || is_text(&v, "false") || is_text(&v, "0") || is_text(&v, "none") {
            Ok(PressureAlert::Off)
        } else if is_text(&v, "warning") || is_text(&v, "warn") || is_text(&v, "true") || is_text(
            &v,
            "1",
        ) {
            Ok(PressureAlert::Warning)
        } else if is_text(&v, "critical") || is_text(&v, "crit") {
            Ok(PressureAlert::Critical)
        } else {
            Err(string_of(&v).concat(" (use off|warning|critical)"))
        }
    }
}

/// How the daemon runs.
#[derive(Debug, Clone, Copy)]
pub struct DaemonConfig {
    /// Time between two samples
    pub interval: Option<Duration>,
    /// How much history a new client gets
    pub history: Option<Duration>,
    /// Whether the daemon starts in the background
    pub detach: Option<bool>,
}

impl Default for DaemonConfig {
    fn default() -> (r: DaemonConfig)
        ensures
            r == (DaemonConfig { interval: None, history: None, detach: None }),
    {
        DaemonConfig { interval: None, history: None, detach: None }
    }
}

/// The alert settings. Percentages are counted in millionths; a value of zero
/// turns a rule off, for one name where it stands beside a name.
#[derive(Debug, Clone)]
pub struct AlertsConfig {
    /// Processor threshold, in percent of one core
    pub cpu: Option<i64>,
    /// Memory threshold, in percent of all memory
    pub mem: Option<i64>,
    /// Memory threshold in bytes; the lower of the two counts, and zero means
    /// none
    pub mem_bytes: Option<u64>,
    /// Least time between two alerts of one rule on one process
    pub cooldown: Option<Duration>,
    /// Volume threshold, in percent of its capacity
    pub disk: Option<i64>,
    pub pressure: Option<PressureAlert>,
    /// Processor threshold of a whole application
    pub app_cpu: Option<i64>,
    /// Memory threshold of a whole application
    pub app_mem: Option<i64>,
    /// Memory threshold of a whole application in bytes
    pub app_mem_bytes: Option<u64>,
    pub cpu_overrides: Overrides,
    pub mem_overrides: Overrides,
    /// Volume thresholds by mount point
    pub disk_overrides: Overrides,
    pub app_cpu_overrides: Overrides,
    pub app_mem_overrides: Overrides,
    /// Whether the template counts
    pub template: Option<bool>,
}

/// Whether nothing is set.
pub open spec fn is_default_alerts(a: AlertsConfig) -> bool {
    &&& a.cpu is None
    &&& a.mem is None
    &&& a.mem_bytes is None
    &&& a.cooldown is None
    &&& a.disk is None
    &&& a.pressure is None
    &&& a.app_cpu is None
    &&& a.app_mem is None
    &&& a.app_mem_bytes is None
    &&& a.cpu_overrides.map() == Map::<Seq<char>, i64>::empty()
    &&& a.mem_overrides.map() == Map::<Seq<char>, i64>::empty()
    &&& a.disk_overrides.map() == Map::<Seq<char>, i64>::empty()
    &&& a.app_cpu_overrides.map() == Map::<Seq<char>, i64>::empty()
    &&& a.app_mem_overrides.map() == Map::<Seq<char>, i64>::empty()
    &&& a.template is None
}

impl Default for AlertsConfig {
    fn default() -> (r: AlertsConfig)
        ensures
            is_default_alerts(r),
    {
        AlertsConfig {
            cpu: None,
            mem: None,
            mem_bytes: None,
            cooldown: None,
            disk: None,
            pressure: None,
            app_cpu: None,
            app_mem: None,
            app_mem_bytes: None,
            cpu_overrides: Overrides::new(),
            mem_overrides: Overrides::new(),
            disk_overrides: Overrides::new(),
            app_cpu_overrides: Overrides::new(),
            app_mem_overrides: Overrides::new(),
            template: None,
        }
    }
}

/// The whole settings file.
#[derive(Debug, Clone)]
pub struct FileConfig {
    /// The collector's settings; absent when the file has none
    pub collector: Option<CollectorConfig>,
    pub daemon: DaemonConfig,
    pub alerts: AlertsConfig,
}

impl Default for FileConfig {
    fn default() -> (r: FileConfig)
        ensures
            r.collector is None,
            r.daemon == (DaemonConfig { interval: None, history: None, detach: None }),
            is_default_alerts(r.alerts),
    {
        FileConfig {
            collector: None,
            daemon: DaemonConfig::default(),
            alerts: AlertsConfig::default(),
        }
    }
}

/// A rule with a percentage.
#[derive(Debug, Clone, Copy, PartialEq, Eq, Structural)]
pub enum Rule {
    Cpu,
    Mem,
    AppCpu,
    AppMem,
    Disk,
}

/// How often the collector refreshes something.
#[derive(Debug, Clone, Copy, PartialEq, Eq, Structural)]
pub enum Cadence {
    Process,
    Disk,
    DiskStorage,
    Network,
    Temperature,
    CpuFrequency,
    Battery,
    Gpu,
    Drive,
}

/// Whether the collector does something.
#[derive(Debug, Clone, Copy, PartialEq, Eq, Structural)]
pub enum Toggle {
    Processes,
    Disks,
    Networks,
    Temperatures,
    Battery,
    Gpu,
    Drives,
    ProcessDiskIo,
    ProcessGroups,
    DedupeDisks,
    PerCoreCpu,
}

/// A single setting.
#[derive(Debug, Clone, Copy, PartialEq, Eq, Structural)]
pub enum Setting {
    Interval,
    History,
    Detach,
    Cadence(Cadence),
    ProcessBoost,
    MaxProcesses,
    Toggle(Toggle),
    Percent(Rule),
    MemBytes,
    AppMemBytes,
    Cooldown,
    Pressure,
    Template,
}

/// The setting that a key names.
pub open spec fn setting_of(key: Seq<char>) -> Option<Setting> {
    if key == "interval"@ {
        Some(Setting::Interval)
    } else if key == "history"@ {
        Some(Setting::History)
    } else if key == "detach"@ {
        Some(Setting::Detach)
    } else if key == "process-interval"@ {
        Some(Setting::Cadence(Cadence::Process))
    } else if key == "disk-interval"@ {
        Some(Setting::Cadence(Cadence::Disk))
    } else if key == "disk-storage-interval"@ {
        Some(Setting::Cadence(Cadence::DiskStorage))
    } else if key == "network-interval"@ {
        Some(Setting::Cadence(Cadence::Network))
    } else if key == "temp-interval"@ {
        Some(Setting::Cadence(Cadence::Temperature))
    } else if key == "battery-interval"@ {
        Some(Setting::Cadence(Cadence::Battery))
    } else if key == "gpu-interval"@ {
        Some(Setting::Cadence(Cadence::Gpu))
    } else if key == "drive-interval"@ {
        Some(Setting::Cadence(Cadence::Drive))
    } else if key == "cpu-freq-interval"@ {
        Some(Setting::Cadence(Cadence::CpuFrequency))
    } else if key == "process-boost"@ {
        Some(Setting::ProcessBoost)
    } else if key == "max-processes"@ {
        Some(Setting::MaxProcesses)
    } else if key == "collect-processes"@ {
        Some(Setting::Toggle(Toggle::Processes))
    } else if key == "collect-disks"@ {
        Some(Setting::Toggle(Toggle::Disks))
    } else if key == "collect-networks"@ {
        Some(Setting::Toggle(Toggle::Networks))
    } else if key == "collect-temperatures"@ {
        Some(Setting::Toggle(Toggle::Temperatures))
    } else if key == "collect-battery"@ {
        Some(Setting::Toggle(Toggle::Battery))
    } else if key == "collect-gpu"@ {
        Some(Setting::Toggle(Toggle::Gpu))
    } else if key == "collect-drives"@ {
        Some(Setting::Toggle(Toggle::Drives))
    } else if key == "process-disk-io"@ {
        Some(Setting::Toggle(Toggle::ProcessDiskIo))
    } else if key == "process-groups"@ {
        Some(Setting::Toggle(Toggle::ProcessGroups))
    } else if key == "dedupe-disks"@ {
        Some(Setting::Toggle(Toggle::DedupeDisks))
    } else if key == "per-core-cpu"@ {
        Some(Setting::Toggle(Toggle::PerCoreCpu))
    } else if key == "alert-app-cpu"@ {
        Some(Setting::Percent(Rule::AppCpu))
    } else if key == "alert-app-mem"@ {
        Some(Setting::Percent(Rule::AppMem))
    } else if key == "alert-cpu"@ {
        Some(Setting::Percent(Rule::Cpu))
    } else if key == "alert-mem"@ {
        Some(Setting::Percent(Rule::Mem))
    } else if key == "alert-mem-bytes"@ {
        Some(Setting::MemBytes)
    } else if key == "alert-app-mem-bytes"@ {
        Some(Setting::AppMemBytes)
    } else if key == "alert-disk"@ {
        Some(Setting::Percent(Rule::Disk))
    } else if key == "alert-cooldown"@ {
        Some(Setting::Cooldown)
    } else if key == "alert-pressure"@ {
        Some(Setting::Pressure)
    } else if key == "alert-template"@ {
        Some(Setting::Template)
    } else {
        None
    }
}

/// The setting that a key names.
fn find_setting(key: &str) -> (r: Option<Setting>)
    ensures
        r == setting_of(key@),
{
    let k = chars_of(key);
    if is_text(&k, "interval") {
        Some(Setting::Interval)
    } else if is_text(&k, "history") {
        Some(Setting::History)
    } else if is_text(&k, "detach") {
        Some(Setting::Detach)
    } else if is_text(&k, "process-interval") {
        Some(Setting::Cadence(Cadence::Process))
    } else if is_text(&k, "disk-interval") {
        Some(Setting::Cadence(Cadence::Disk))
    } else if is_text(&k, "disk-storage-interval") {
        Some(Setting::Cadence(Cadence::DiskStorage))
    } else if is_text(&k, "network-interval") {
        Some(Setting::Cadence(Cadence::Network))
    } else if is_text(&k, "temp-interval") {
        Some(Setting::Cadence(Cadence::Temperature))
    } else if is_text(&k, "battery-interval") {
        Some(Setting::Cadence(Cadence::Battery))
    } else if is_text(&k, "gpu-interval") {
        Some(Setting::Cadence(Cadence::Gpu))
    } else if is_text(&k, "drive-interval") {
        Some(Setting::Cadence(Cadence::Drive))
    } else if is_text(&k, "cpu-freq-interval") {
        Some(Setting::Cadence(Cadence::CpuFrequency))
    } else if is_text(&k, "process-boost") {
        Some(Setting::ProcessBoost)
    } else if is_text(&k, "max-processes") {
        Some(Setting::MaxProcesses)
    } else if is_text(&k, "collect-processes") {
        Some(Setting::Toggle(Toggle::Processes))
    } else if is_text(&k, "collect-disks") {
        Some(Setting::Toggle(Toggle::Disks))
    } else if is_text(&k, "collect-networks") {
        Some(Setting::Toggle(Toggle::Networks))
    } else if is_text(&k, "collect-temperatures") {
        Some(Setting::Toggle(Toggle::Temperatures))
    } else if is_text(&k, "collect-battery") {
        Some(Setting::Toggle(Toggle::Battery))
    } else if is_text(&k, "collect-gpu") {
        Some(Setting::Toggle(Toggle::Gpu))
    } else if is_text(&k, "collect-drives") {
        Some(Setting::Toggle(Toggle::Drives))
    } else if is_text(&k, "process-disk-io") {
        Some(Setting::Toggle(Toggle::ProcessDiskIo))
    } else if is_text(&k, "process-groups") {
        Some(Setting::Toggle(Toggle::ProcessGroups))
    } else if is_text(&k, "dedupe-disks") {
        Some(Setting::Toggle(Toggle::DedupeDisks))
    } else if is_text(&k, "per-core-cpu") {
        Some(Setting::Toggle(Toggle::PerCoreCpu))
    } else if is_text(&k, "alert-app-cpu") {
        Some(Setting::Percent(Rule::AppCpu))
    } else if is_text(&k, "alert-app-mem") {
        Some(Setting::Percent(Rule::AppMem))
    } else if is_text(&k, "alert-cpu") {
        Some(Setting::Percent(Rule::Cpu))
    } else if is_text(&k, "alert-mem") {
        Some(Setting::Percent(Rule::Mem))
    } else if is_text(&k, "alert-mem-bytes") {
        Some(Setting::MemBytes)
    } else if is_text(&k, "alert-app-mem-bytes") {
        Some(Setting::AppMemBytes)
    } else if is_text(&k, "alert-disk") {
        Some(Setting::Percent(Rule::Disk))
    } else if is_text(&k, "alert-cooldown") {
        Some(Setting::Cooldown)
    } else if is_text(&k, "alert-pressure") {
        Some(Setting::Pressure)
    } else if is_text(&k, "alert-template") {
        Some(Setting::Template)
    } else {
        None
    }
}

/// The keys that settings have, for messages.
pub const KNOWN_KEYS: &'static str =
    "interval, history, detach, process-interval, disk-interval, disk-storage-interval, network-interval, temp-interval, cpu-freq-interval, battery-interval, gpu-interval, drive-interval, process-boost, max-processes, collect-processes, collect-disks, collect-networks, collect-temperatures, collect-battery, collect-gpu, collect-drives, process-disk-io, process-groups, dedupe-disks, per-core-cpu, alert-cpu, alert-mem, alert-mem-bytes, alert-app-cpu, alert-app-mem, alert-app-mem-bytes, alert-disk, alert-pressure, alert-cooldown, alert-template";

/// The alert settings as values.
pub ghost struct AlertsView {
    pub cpu: Option<i64>,
    pub mem: Option<i64>,
    pub mem_bytes: Option<u64>,
    pub cooldown: Option<Duration>,
    pub disk: Option<i64>,
    pub pressure: Option<PressureAlert>,
    pub app_cpu: Option<i64>,
    pub app_mem: Option<i64>,
    pub app_mem_bytes: Option<u64>,
    pub cpu_overrides: Map<Seq<char>, i64>,
    pub mem_overrides: Map<Seq<char>, i64>,
    pub disk_overrides: Map<Seq<char>, i64>,
    pub app_cpu_overrides: Map<Seq<char>, i64>,
    pub app_mem_overrides: Map<Seq<char>, i64>,
    pub template: Option<bool>,
}

impl View for AlertsConfig {
    type V = AlertsView;

    open spec fn view(&self) -> AlertsView {
        AlertsView {
            cpu: self.cpu,
            mem: self.mem,
            mem_bytes: self.mem_bytes,
            cooldown: self.cooldown,
            disk: self.disk,
            pressure: self.pressure,
            app_cpu: self.app_cpu,
            app_mem: self.app_mem,
            app_mem_bytes: self.app_mem_bytes,
            cpu_overrides: self.cpu_overrides.map(),
            mem_overrides: self.mem_overrides.map(),
            disk_overrides: self.disk_overrides.map(),
            app_cpu_overrides: self.app_cpu_overrides.map(),
            app_mem_overrides: self.app_mem_overrides.map(),
            template: self.template,
        }
    }
}

/// The settings file as values.
pub ghost struct Settings {
    pub collector: Option<CollectorView>,
    pub daemon: DaemonConfig,
    pub alerts: AlertsView,
}

impl View for FileConfig {
    type V = Settings;

    open spec fn view(&self) -> Settings {
        Settings {
            collector: match self.collector {
                Some(c) => Some(c@),
                None => None,
            },
            daemon: self.daemon,
            alerts: self.alerts@,
        }
    }
}

/// The collector's settings with one cadence changed.
#[verifier::opaque]
pub open spec fn with_cadence(c: CollectorView, which: Cadence, d: Duration) -> CollectorView {
    CollectorView {
        process_refresh_interval: if which == Cadence::Process {
            d
        } else {
            c.process_refresh_interval
        },
        disk_io_refresh_interval: if which == Cadence::Disk {
            d
        } else {
            c.disk_io_refresh_interval
        },
        disk_storage_refresh_interval: if which == Cadence::DiskStorage {
            d
        } else {
            c.disk_storage_refresh_interval
        },
        network_refresh_interval: if which == Cadence::Network {
            d
        } else {
            c.network_refresh_interval
        },
        temperature_refresh_interval: if which == Cadence::Temperature {
            d
        } else {
            c.temperature_refresh_interval
        },
        cpu_frequency_refresh_interval: if which == Cadence::CpuFrequency {
            d
        } else {
            c.cpu_frequency_refresh_interval
        },
        battery_refresh_interval: if which == Cadence::Battery {
            d
        } else {
            c.battery_refresh_interval
        },
        gpu_refresh_interval: if which == Cadence::Gpu {
            d
        } else {
            c.gpu_refresh_interval
        },
        drive_refresh_interval: if which == Cadence::Drive {
            d
        } else {
            c.drive_refresh_interval
        },
        ..c
    }
}

/// A cadence of the collector.
pub open spec fn cadence_of(c: CollectorView, which: Cadence) -> Duration {
    match which {
        Cadence::Process => c.process_refresh_interval,
        Cadence::Disk => c.disk_io_refresh_interval,
        Cadence::DiskStorage => c.disk_storage_refresh_interval,
        Cadence::Network => c.network_refresh_interval,
        Cadence::Temperature => c.temperature_refresh_interval,
        Cadence::CpuFrequency => c.cpu_frequency_refresh_interval,
        Cadence::Battery => c.battery_refresh_interval,
        Cadence::Gpu => c.gpu_refresh_interval,
        Cadence::Drive => c.drive_refresh_interval,
    }
}

/// The collector's settings with one toggle changed.
#[verifier::opaque]
pub open spec fn with_toggle(c: CollectorView, which: Toggle, on: bool) -> CollectorView {
    CollectorView {
        collect_processes: if which == Toggle::Processes {
            on
        } else {
            c.collect_processes
        },
        collect_disks: if which == Toggle::Disks {
            on
        } else {
            c.collect_disks
        },
        collect_networks: if which == Toggle::Networks {
            on
        } else {
            c.collect_networks
        },
        collect_temperatures: if which == Toggle::Temperatures {
            on
        } else {
            c.collect_temperatures
        },
        collect_battery: if which == Toggle::Battery {
            on
        } else {
            c.collect_battery
        },
        collect_gpu: if which == Toggle::Gpu {
            on
        } else {
            c.collect_gpu
        },
        collect_drives: if which == Toggle::Drives {
            on
        } else {
            c.collect_drives
        },
        collect_process_disk_io: if which == Toggle::ProcessDiskIo {
            on
        } else {
            c.collect_process_disk_io
        },
        collect_process_groups: if which == Toggle::ProcessGroups {
            on
        } else {
            c.collect_process_groups
        },
        dedupe_disks: if which == Toggle::DedupeDisks {
            on
        } else {
            c.dedupe_disks
        },
        per_core_cpu: if which == Toggle::PerCoreCpu {
            on
        } else {
            c.per_core_cpu
        },
        ..c
    }
}

/// A toggle of the collector.
pub open spec fn toggle_of(c: CollectorView, which: Toggle) -> bool {
    match which {
        Toggle::Processes => c.collect_processes,
        Toggle::Disks => c.collect_disks,
        Toggle::Networks => c.collect_networks,
        Toggle::Temperatures => c.collect_temperatures,
        Toggle::Battery => c.collect_battery,
        Toggle::Gpu => c.collect_gpu,
        Toggle::Drives => c.collect_drives,
        Toggle::ProcessDiskIo => c.collect_process_disk_io,
        Toggle::ProcessGroups => c.collect_process_groups,
        Toggle::DedupeDisks => c.dedupe_disks,
        Toggle::PerCoreCpu => c.per_core_cpu,
    }
}

/// The collector's settings of the file, or the builtin ones where it has none.
pub open spec fn collector_of(s: Settings, target: Seq<char>) -> CollectorView {
    match s.collector {
        Some(c) => c,
        None => default_collector(target),
    }
}

/// The settings with other ones of the collector.
pub open spec fn with_collector(s: Settings, c: CollectorView) -> Settings {
    Settings { collector: Some(c), ..s }
}

/// The settings with the percentage of one rule changed.
pub open spec fn with_percent(s: Settings, rule: Rule, percent: Option<i64>) -> Settings {
    let a = s.alerts;
    let alerts = match rule {
        Rule::Cpu => AlertsView { cpu: percent, ..a },
        Rule::Mem => AlertsView { mem: percent, ..a },
        Rule::AppCpu => AlertsView { app_cpu: percent, ..a },
        Rule::AppMem => AlertsView { app_mem: percent, ..a },
        Rule::Disk => AlertsView { disk: percent, ..a },
    };
    Settings { alerts, ..s }
}

/// The percentages of single names in one rule.
pub open spec fn overrides_of(s: Settings, rule: Rule) -> Map<Seq<char>, i64> {
    match rule {
        Rule::Cpu => s.alerts.cpu_overrides,
        Rule::Mem => s.alerts.mem_overrides,
        Rule::AppCpu => s.alerts.app_cpu_overrides,
        Rule::AppMem => s.alerts.app_mem_overrides,
        Rule::Disk => s.alerts.disk_overrides,
    }
}

/// The settings with other percentages of single names in one rule.
pub open spec fn with_overrides(s: Settings, rule: Rule, m: Map<Seq<char>, i64>) -> Settings {
    let a = s.alerts;
    let alerts = match rule {
        Rule::Cpu => AlertsView { cpu_overrides: m, ..a },
        Rule::Mem => AlertsView { mem_overrides: m, ..a },
        Rule::AppCpu => AlertsView { app_cpu_overrides: m, ..a },
        Rule::AppMem => AlertsView { app_mem_overrides: m, ..a },
        Rule::Disk => AlertsView { disk_overrides: m, ..a },
    };
    Settings { alerts, ..s }
}

/// What a percentage is stored as: nothing that is no number is above zero.
pub open spec fn stored(r: Reading) -> i64 {
    match r {
        Reading::NotANumber => 0,
        Reading::Millionths(v) => v,
    }
}

/// The message for a value that its key does not take.
pub open spec fn invalid(key: Seq<char>, value: Seq<char>) -> Seq<char> {
    "invalid value for "@ + key + ": "@ + value
}

/// The message for a setting that has its value.
pub open spec fn assigned(key: Seq<char>, value: Seq<char>) -> Seq<char> {
    key + " = "@ + trimmed(value)
}

/// The settings and the message that follow a change, or the message for a
/// change that is refused.
pub type Change = Result<(Settings, Seq<char>), Seq<char>>;

/// Sets the percentage of a rule, or of one name as `name=percent`.
pub open spec fn add_percent(s: Settings, rule: Rule, key: Seq<char>, value: Seq<char>) -> Change {
    let k = first_index(value, '=');
    if k < value.len() {
        let name = trimmed(value.take(k));
        let percent = value.skip(k + 1);
        if name.len() == 0 {
            Err(
                invalid(key, value) + if rule == Rule::Disk {
                    " (empty mount)"@
                } else {
                    " (empty name)"@
                },
            )
        } else if !valid_key(name) {
            Err(invalid(key, name + " (a `*` may only start or end a name)"@))
        } else {
            match reading_of(trimmed(percent)) {
                None => Err(invalid(key, percent)),
                Some(r) => Ok(
                    (
                        with_overrides(s, rule, overrides_of(s, rule).insert(name, stored(r))),
                        key + " override: "@ + name + " = "@ + told_again(trimmed(percent))
                            + "% (0 disables)"@,
                    ),
                ),
            }
        }
    } else {
        match reading_of(trimmed(value)) {
            None => Err(invalid(key, value)),
            Some(r) => Ok((with_percent(s, rule, Some(stored(r))), assigned(key, value))),
        }
    }
}

/// The message for a number of bytes.
pub open spec fn bytes_message(key: Seq<char>, bytes: nat, percent_key: Seq<char>) -> Seq<char> {
    key + " = "@ + size_text(bytes)
        + " (0 removes the absolute ceiling; the effective bar is the lower of this and "@
        + percent_key + ")"@
}

/// Sets one setting from its text.
pub open spec fn add_setting(
    s: Settings,
    target: Seq<char>,
    key: Seq<char>,
    value: Seq<char>,
) -> Change {
    add_as(s, target, setting_of(key), key, value)
}

/// Sets the setting that `key` names from its text.
#[verifier::opaque]
pub open spec fn add_as(
    s: Settings,
    target: Seq<char>,
    setting: Option<Setting>,
    key: Seq<char>,
    value: Seq<char>,
) -> Change {
    let c = collector_of(s, target);
    let duration = duration_of(value);
    let span = Duration { nanos: (duration->Ok_0 * NANOS_PER_MILLI) as u128 };
    let no_duration = Err(key + ": "@ + duration->Err_0);
    let flag = bool_of(trimmed(value));
    let done = assigned(key, value);
    match setting {
        None => Err("unknown key: "@ + key + " (known keys: "@ + KNOWN_KEYS@ + ")"@),
        Some(Setting::Interval) => if duration is Err {
            no_duration
        } else if duration->Ok_0 == 0 {
            Err("interval must be greater than 0"@)
        } else {
            Ok(
                (
                    Settings { daemon: DaemonConfig { interval: Some(span), ..s.daemon }, ..s },
                    done,
                ),
            )
        },
        Some(Setting::History) => if duration is Err {
            no_duration
        } else {
            Ok((Settings { daemon: DaemonConfig { history: Some(span), ..s.daemon }, ..s }, done))
        },
        Some(Setting::Detach) => match flag {
            None => Err(invalid(key, value)),
            Some(on) => Ok(
                (Settings { daemon: DaemonConfig { detach: Some(on), ..s.daemon }, ..s }, done),
            ),
        },
        Some(Setting::Cadence(which)) => if duration is Err {
            no_duration
        } else {
            Ok((with_collector(s, with_cadence(c, which, span)), done))
        },
        Some(Setting::ProcessBoost) => match reading_of(trimmed(value)) {
            Some(Reading::Millionths(v)) => if v < 0 {
                Err(invalid(key, value))
            } else {
                Ok(
                    (
                        with_collector(
                            s,
                            CollectorView { process_boost_cpu_cores: Some(v as u64), ..c },
                        ),
                        done,
                    ),
                )
            },
            _ => Err(invalid(key, value)),
        },
        Some(Setting::MaxProcesses) => match unsigned_of(trimmed(value)) {
            None => Err(invalid(key, value)),
            Some(n) => if n > usize::MAX {
                Err(invalid(key, value))
            } else {
                Ok((with_collector(s, CollectorView { max_processes: n as usize, ..c }), done))
            },
        },
        Some(Setting::Toggle(which)) => match flag {
            None => Err(invalid(key, value)),
            Some(on) => Ok((with_collector(s, with_toggle(c, which, on)), done)),
        },
        Some(Setting::Percent(rule)) => add_percent(s, rule, key, value),
        Some(Setting::MemBytes) => match size_of_text(value) {
            Err(e) => Err(invalid(key, e)),
            Ok(bytes) => Ok(
                (
                    Settings {
                        alerts: AlertsView { mem_bytes: Some(bytes as u64), ..s.alerts },
                        ..s
                    },
                    bytes_message(key, bytes, "alert-mem"@),
                ),
            ),
        },
        Some(Setting::AppMemBytes) => match size_of_text(value) {
            Err(e) => Err(invalid(key, e)),
            Ok(bytes) => Ok(
                (
                    Settings {
                        alerts: AlertsView { app_mem_bytes: Some(bytes as u64), ..s.alerts },
                        ..s
                    },
                    bytes_message(key, bytes, "alert-app-mem"@),
                ),
            ),
        },
        Some(Setting::Cooldown) => if duration is Err {
            no_duration
        } else {
            Ok((Settings { alerts: AlertsView { cooldown: Some(span), ..s.alerts }, ..s }, done))
        },
        Some(Setting::Pressure) => match pressure_of(value) {
            Err(e) => Err(invalid(key, e)),
            Ok(p) => Ok(
                (Settings { alerts: AlertsView { pressure: Some(p), ..s.alerts }, ..s }, done),
            ),
        },
        Some(Setting::Template) => match flag {
            None => Err(invalid(key, value)),
            Some(on) => Ok(
                (Settings { alerts: AlertsView { template: Some(on), ..s.alerts }, ..s }, done),
            ),
        },
    }
}

/// Whether a key takes a duration.
pub open spec fn takes_duration(key: Seq<char>) -> bool {
    match setting_of(key) {
        Some(Setting::Interval) => true,
        Some(Setting::History) => true,
        Some(Setting::Cadence(_)) => true,
        Some(Setting::Cooldown) => true,
        _ => false,
    }
}

/// Whether a key takes a duration.
pub fn wants_duration(key: &str) -> (r: bool)
    ensures
        r == takes_duration(key@),
{
    match find_setting(key) {
        Some(Setting::Interval) => true,
        Some(Setting::History) => true,
        Some(Setting::Cadence(_)) => true,
        Some(Setting::Cooldown) => true,
        _ => false,
    }
}

/// The collector's settings, taken out of the file's; the builtin ones where
/// there are none.
fn take_collector(config: &mut FileConfig, target_os: &str) -> (r: CollectorConfig)
    ensures
        r@ == collector_of(old(config)@, target_os@),
        final(config).daemon == old(config).daemon,
        final(config).alerts == old(config).alerts,
{
    match config.collector.take() {
        Some(c) => c,
        None => CollectorConfig::default(target_os),
    }
}

/// Changes one cadence.
fn set_cadence(c: &mut CollectorConfig, which: Cadence, d: Duration)
    ensures
        final(c)@ == with_cadence(old(c)@, which, d),
{
    proof {
        reveal(with_cadence);
    }
    match which {
        Cadence::Process => {
            c.process_refresh_interval = d;
        },
        Cadence::Disk => {
            c.disk_io_refresh_interval = d;
        },
        Cadence::DiskStorage => {
            c.disk_storage_refresh_interval = d;
        },
        Cadence::Network => {
            c.network_refresh_interval = d;
        },
        Cadence::Temperature => {
            c.temperature_refresh_interval = d;
        },
        Cadence::CpuFrequency => {
            c.cpu_frequency_refresh_interval = d;
        },
        Cadence::Battery => {
            c.battery_refresh_interval = d;
        },
        Cadence::Gpu => {
            c.gpu_refresh_interval = d;
        },
        Cadence::Drive => {
            c.drive_refresh_interval = d;
        },
    }
}

/// A cadence.
fn get_cadence(c: &CollectorConfig, which: Cadence) -> (d: Duration)
    ensures
        d == cadence_of(c@, which),
{
    match which {
        Cadence::Process => c.process_refresh_interval,
        Cadence::Disk => c.disk_io_refresh_interval,
        Cadence::DiskStorage => c.disk_storage_refresh_interval,
        Cadence::Network => c.network_refresh_interval,
        Cadence::Temperature => c.temperature_refresh_interval,
        Cadence::CpuFrequency => c.cpu_frequency_refresh_interval,
        Cadence::Battery => c.battery_refresh_interval,
        Cadence::Gpu => c.gpu_refresh_interval,
        Cadence::Drive => c.drive_refresh_interval,
    }
}

/// Changes one toggle.
fn set_toggle(c: &mut CollectorConfig, which: Toggle, on: bool)
    ensures
        final(c)@ == with_toggle(old(c)@, which, on),
{
    proof {
        reveal(with_toggle);
    }
    match which {
        Toggle::Processes => {
            c.collect_processes = on;
        },
        Toggle::Disks => {
            c.collect_disks = on;
        },
        Toggle::Networks => {
            c.collect_networks = on;
        },
        Toggle::Temperatures => {
            c.collect_temperatures = on;
        },
        Toggle::Battery => {
            c.collect_battery = on;
        },
        Toggle::Gpu => {
            c.collect_gpu = on;
        },
        Toggle::Drives => {
            c.collect_drives = on;
        },
        Toggle::ProcessDiskIo => {
            c.collect_process_disk_io = on;
        },
        Toggle::ProcessGroups => {
            c.collect_process_groups = on;
        },
        Toggle::DedupeDisks => {
            c.dedupe_disks = on;
        },
        Toggle::PerCoreCpu => {
            c.per_core_cpu = on;
        },
    }
}

/// A toggle.
fn get_toggle(c: &CollectorConfig, which: Toggle) -> (on: bool)
    ensures
        on == toggle_of(c@, which),
{
    match which {
        Toggle::Processes => c.collect_processes,
        Toggle::Disks => c.collect_disks,
        Toggle::Networks => c.collect_networks,
        Toggle::Temperatures => c.collect_temperatures,
        Toggle::Battery => c.collect_battery,
        Toggle::Gpu => c.collect_gpu,
        Toggle::Drives => c.collect_drives,
        Toggle::ProcessDiskIo => c.collect_process_disk_io,
        Toggle::ProcessGroups => c.collect_process_groups,
        Toggle::DedupeDisks => c.dedupe_disks,
        Toggle::PerCoreCpu => c.per_core_cpu,
    }
}

/// Changes the percentage of one rule.
fn set_percent(config: &mut FileConfig, rule: Rule, percent: Option<i64>)
    ensures
        final(config)@ == with_percent(old(config)@, rule, percent),
{
    match rule {
        Rule::Cpu => {
            config.alerts.cpu = percent;
        },
        Rule::Mem => {
            config.alerts.mem = percent;
        },
        Rule::AppCpu => {
            config.alerts.app_cpu = percent;
        },
        Rule::AppMem => {
            config.alerts.app_mem = percent;
        },
        Rule::Disk => {
            config.alerts.disk = percent;
        },
    }
}

/// Sets the percentage of one name.
fn set_override(config: &mut FileConfig, rule: Rule, name: &str, percent: i64)
    ensures
        final(config)@ == with_overrides(
            old(config)@,
            rule,
            overrides_of(old(config)@, rule).insert(name@, percent),
        ),
{
    match rule {
        Rule::Cpu => {
            config.alerts.cpu_overrides.insert(name, percent);
        },
        Rule::Mem => {
            config.alerts.mem_overrides.insert(name, percent);
        },
        Rule::AppCpu => {
            config.alerts.app_cpu_overrides.insert(name, percent);
        },
        Rule::AppMem => {
            config.alerts.app_mem_overrides.insert(name, percent);
        },
        Rule::Disk => {
            config.alerts.disk_overrides.insert(name, percent);
        },
    }
}

/// Drops the percentage of one name; whether there was one.
fn drop_override(config: &mut FileConfig, rule: Rule, name: &str) -> (r: bool)
    ensures
        r == overrides_of(old(config)@, rule).contains_key(name@),
        final(config)@ == with_overrides(
            old(config)@,
            rule,
            overrides_of(old(config)@, rule).remove(name@),
        ),
{
    match rule {
        Rule::Cpu => config.alerts.cpu_overrides.remove(name),
        Rule::Mem => config.alerts.mem_overrides.remove(name),
        Rule::AppCpu => config.alerts.app_cpu_overrides.remove(name),
        Rule::AppMem => config.alerts.app_mem_overrides.remove(name),
        Rule::Disk => config.alerts.disk_overrides.remove(name),
    }
}

/// The message for a value that its key does not take.
fn refuse(key: &str, value: &str) -> (r: String)
    ensures
        r@ == invalid(key@, value@),
{
    "invalid value for ".to_owned().concat(key).concat(": ").concat(value)
}

/// Reads a duration, with the key in front of a message.
fn read_span(key: &str, value: &str) -> (r: Result<Duration, String>)
    requires
        duration_in_range(value@),
    ensures
        r is Ok == duration_of(value@) is Ok,
        r is Ok ==> r->Ok_0 == (Duration {
            nanos: (duration_of(value@)->Ok_0 * NANOS_PER_MILLI) as u128,
        }),
        r is Err ==> r->Err_0@ == key@ + ": "@ + duration_of(value@)->Err_0,
{
    match parse_duration(value) {
        Ok(d) => Ok(d),
        Err(e) => Err(key.to_owned().concat(": ").concat(e.as_str())),
    }
}

/// Reads a truth value.
fn read_flag(key: &str, value: &str) -> (r: Result<bool, String>)
    ensures
        r is Ok == bool_of(trimmed(value@)) is Some,
        r is Ok ==> r->Ok_0 == bool_of(trimmed(value@))->0,
        r is Err ==> r->Err_0@ == invalid(key@, value@),
{
    match parse_bool(&trim(&chars_of(value))) {
        Some(on) => Ok(on),
        None => Err(refuse(key, value)),
    }
}

/// Reads a number.
fn read_decimal(key: &str, value: &str) -> (r: Result<Reading, String>)
    ensures
        r is Ok == reading_of(trimmed(value@)) is Some,
        r is Ok ==> r->Ok_0 == reading_of(trimmed(value@))->0,
        r is Err ==> r->Err_0@ == invalid(key@, value@),
{
    match read_number(&trim(&chars_of(value))) {
        Some(reading) => Ok(reading),
        None => Err(refuse(key, value)),
    }
}

/// Refuses a name with a star anywhere but at its ends.
fn check_name_pattern(key: &str, name: &str) -> (r: Result<(), String>)
    ensures
        r is Ok == valid_key(name@),
        r is Err ==> r->Err_0@ == invalid(
            key@,
            name@ + " (a `*` may only start or end a name)"@,
        ),
{
    match Matcher::parse(name) {
        Ok(_) => Ok(()),
        Err(e) => Err(refuse(key, e.as_str())),
    }
}

/// Sets the percentage of a rule or of one name.
fn apply_percent(config: &mut FileConfig, rule: Rule, key: &str, value: &str) -> (r: Result<
    String,
    String,
>)
    ensures
        r is Ok ==> add_percent(old(config)@, rule, key@, value@) == Ok::<
            (Settings, Seq<char>),
            Seq<char>,
        >((final(config)@, r->Ok_0@)),
        r is Err ==> add_percent(old(config)@, rule, key@, value@) == Err::<
            (Settings, Seq<char>),
            Seq<char>,
        >(r->Err_0@) && final(config)@ == old(config)@,
{
    let v = chars_of(value);
    let k: usize = find_char(&v, '=');
    if k < v.len() {
        let before = part(&v, 0, k);
        let after = part(&v, k + 1, v.len());
        assert(before@ =~= value@.take(k as int));
        assert(after@ =~= value@.skip(k as int + 1));
        let name_chars = trim(&before);
        let name = string_of(&name_chars);
        let percent = string_of(&after);
        if name_chars.len() == 0 {
            let refused = refuse(key, value);
            return Err(
                match rule {
                    Rule::Disk => refused.concat(" (empty mount)"),
                    _ => refused.concat(" (empty name)"),
                },
            );
        }
        if let Err(e) = check_name_pattern(key, name.as_str()) {
            return Err(e);
        }
        let reading = match read_decimal(key, percent.as_str()) {
            Ok(reading) => reading,
            Err(e) => {
                return Err(e);
            },
        };
        let number: i64 = match reading {
            Reading::NotANumber => 0,
            Reading::Millionths(v) => v,
        };
        let shown = tell_again(&trim(&after));
        set_override(config, rule, name.as_str(), number);
        let message = key.to_owned().concat(" override: ").concat(name.as_str()).concat(
            " = ",
        ).concat(shown.as_str()).concat("% (0 disables)");
        return Ok(message);
    }
    let number: i64 = match read_decimal(key, value) {
        Ok(Reading::NotANumber) => 0,
        Ok(Reading::Millionths(v)) => v,
        Err(e) => {
            return Err(e);
        },
    };
    set_percent(config, rule, Some(number));
    Ok(done_message(key, value))
}

/// The message for a setting that has its value.
fn done_message(key: &str, value: &str) -> (r: String)
    ensures
        r@ == assigned(key@, value@),
{
    let trimmed_value = string_of(&trim(&chars_of(value)));
    key.to_owned().concat(" = ").concat(trimmed_value.as_str())
}

/// The message for a key that names no setting.
fn unknown_key(key: &str) -> (r: String)
    ensures
        r@ == "unknown key: "@ + key@ + " (known keys: "@ + KNOWN_KEYS@ + ")"@,
{
    "unknown key: ".to_owned().concat(key).concat(" (known keys: ").concat(KNOWN_KEYS).concat(")")
}

/// The message for a number of bytes.
fn ceiling_message(key: &str, bytes: u64, percent_key: &str) -> (r: String)
    ensures
        r@ == bytes_message(key@, bytes as nat, percent_key@),
{
    key.to_owned().concat(" = ").concat(format_size(bytes).as_str()).concat(
        " (0 removes the absolute ceiling; the effective bar is the lower of this and ",
    ).concat(percent_key).concat(")")
}

/// Sets one setting from its text. The result tells of the change, or why it
/// was refused; a refused change changes nothing.
pub fn apply_add(config: &mut FileConfig, key: &str, value: &str, target_os: &str) -> (r: Result<
    String,
    String,
>)
    requires
        takes_duration(key@) ==> duration_in_range(value@),
    ensures
        r is Ok ==> add_setting(old(config)@, target_os@, key@, value@) == Ok::<
            (Settings, Seq<char>),
            Seq<char>,
        >((final(config)@, r->Ok_0@)),
        r is Err ==> add_setting(old(config)@, target_os@, key@, value@) == Err::<
            (Settings, Seq<char>),
            Seq<char>,
        >(r->Err_0@) && final(config)@ == old(config)@,
{
    proof {
        reveal(add_as);
    }
    let setting = match find_setting(key) {
        Some(setting) => setting,
        None => {
            return Err(unknown_key(key));
        },
    };
    match setting {
        Setting::Interval => {
            let d = match read_span(key, value) {
                Ok(d) => d,
                Err(e) => {
                    return Err(e);
                },
            };
            if d.is_zero() {
                return Err("interval must be greater than 0".to_owned());
            }
            config.daemon.interval = Some(d);
        },
        Setting::History => {
            let d = match read_span(key, value) {
                Ok(d) => d,
                Err(e) => {
                    return Err(e);
                },
            };
            config.daemon.history = Some(d);
        },
        Setting::Detach => {
            let on: bool = match read_flag(key, value) {
                Ok(on) => on,
                Err(e) => {
                    return Err(e);
                },
            };
            config.daemon.detach = Some(on);
        },
        Setting::Cadence(which) => {
            let d = match read_span(key, value) {
                Ok(d) => d,
                Err(e) => {
                    return Err(e);
                },
            };
            let mut c = take_collector(config, target_os);
            set_cadence(&mut c, which, d);
            config.collector = Some(c);
        },
        Setting::ProcessBoost => {
            let cores: i64 = match read_decimal(key, value) {
                Ok(Reading::Millionths(v)) => v,
                Ok(Reading::NotANumber) => {
                    return Err(refuse(key, value));
                },
                Err(e) => {
                    return Err(e);
                },
            };
            if cores < 0 {
                return Err(refuse(key, value));
            }
            let mut c = take_collector(config, target_os);
            c.process_boost_cpu_cores = Some(cores as u64);
            config.collector = Some(c);
        },
        Setting::MaxProcesses => {
            let n: u64 = match parse_unsigned(&trim(&chars_of(value))) {
                Some(n) => n,
                None => {
                    return Err(refuse(key, value));
                },
            };
            if n > usize::MAX as u64 {
                return Err(refuse(key, value));
            }
            let mut c = take_collector(config, target_os);
            c.max_processes = n as usize;
            config.collector = Some(c);
        },
        Setting::Toggle(which) => {
            let on: bool = match read_flag(key, value) {
                Ok(on) => on,
                Err(e) => {
                    return Err(e);
                },
            };
            let mut c = take_collector(config, target_os);
            set_toggle(&mut c, which, on);
            config.collector = Some(c);
        },
        Setting::Percent(rule) => {
            return apply_percent(config, rule, key, value);
        },
        Setting::MemBytes => {
            let bytes: u64 = match parse_size(value) {
                Ok(bytes) => bytes,
                Err(e) => {
                    return Err(refuse(key, e.as_str()));
                },
            };
            config.alerts.mem_bytes = Some(bytes);
            return Ok(ceiling_message(key, bytes, "alert-mem"));
        },
        Setting::AppMemBytes => {
            let bytes: u64 = match parse_size(value) {
                Ok(bytes) => bytes,
                Err(e) => {
                    return Err(refuse(key, e.as_str()));
                },
            };
            config.alerts.app_mem_bytes = Some(bytes);
            return Ok(ceiling_message(key, bytes, "alert-app-mem"));
        },
        Setting::Cooldown => {
            let d = match read_span(key, value) {
                Ok(d) => d,
                Err(e) => {
                    return Err(e);
                },
            };
            config.alerts.cooldown = Some(d);
        },
        Setting::Pressure => {
            let p = match PressureAlert::parse(value) {
                Ok(p) => p,
                Err(e) => {
                    return Err(refuse(key, e.as_str()));
                },
            };
            config.alerts.pressure = Some(p);
        },
        Setting::Template => {
            let on: bool = match read_flag(key, value) {
                Ok(on) => on,
                Err(e) => {
                    return Err(e);
                },
            };
            config.alerts.template = Some(on);
        },
    }
    Ok(done_message(key, value))
}

/// Takes one setting back to its builtin value.
pub open spec fn reset_setting(s: Settings, target: Seq<char>, setting: Setting) -> Settings {
    let c = collector_of(s, target);
    let d = default_collector(target);
    match setting {
        Setting::Interval => Settings {
            daemon: DaemonConfig { interval: None, ..s.daemon },
            ..s
        },
        Setting::History => Settings { daemon: DaemonConfig { history: None, ..s.daemon }, ..s },
        Setting::Detach => Settings { daemon: DaemonConfig { detach: None, ..s.daemon }, ..s },
        Setting::Cadence(which) => with_collector(
            s,
            with_cadence(c, which, cadence_of(d, which)),
        ),
        Setting::ProcessBoost => with_collector(
            s,
            CollectorView { process_boost_cpu_cores: d.process_boost_cpu_cores, ..c },
        ),
        Setting::MaxProcesses => with_collector(
            s,
            CollectorView { max_processes: d.max_processes, ..c },
        ),
        Setting::Toggle(which) => with_collector(s, with_toggle(c, which, toggle_of(d, which))),
        Setting::Percent(rule) => with_percent(s, rule, None),
        Setting::MemBytes => Settings {
            alerts: AlertsView { mem_bytes: None, ..s.alerts },
            ..s
        },
        Setting::AppMemBytes => Settings {
            alerts: AlertsView { app_mem_bytes: None, ..s.alerts },
            ..s
        },
        Setting::Cooldown => Settings { alerts: AlertsView { cooldown: None, ..s.alerts }, ..s },
        Setting::Pressure => Settings { alerts: AlertsView { pressure: None, ..s.alerts }, ..s },
        Setting::Template => Settings { alerts: AlertsView { template: None, ..s.alerts }, ..s },
    }
}

/// Takes one setting back to its builtin value, or drops one name's value.
#[verifier::opaque]
pub open spec fn remove_setting(
    s: Settings,
    target: Seq<char>,
    key: Seq<char>,
    name: Option<Seq<char>>,
) -> Change {
    match name {
        Some(name) => match setting_of(key) {
            Some(Setting::Percent(rule)) => if overrides_of(s, rule).contains_key(name) {
                Ok(
                    (
                        with_overrides(s, rule, overrides_of(s, rule).remove(name)),
                        "removed "@ + key + " override for "@ + name,
                    ),
                )
            } else {
                Err("no "@ + key + " override found for "@ + name)
            },
            _ => Err(key + " has no per-name overrides"@),
        },
        None => match setting_of(key) {
            Some(setting) => Ok((reset_setting(s, target, setting), key + " reset to default"@)),
            None => Err("unknown key: "@ + key + " (known keys: "@ + KNOWN_KEYS@ + ")"@),
        },
    }
}

/// The view of an optional text.
pub open spec fn text_of(name: Option<&str>) -> Option<Seq<char>> {
    match name {
        Some(name) => Some(name@),
        None => None,
    }
}

/// Takes one setting back to its builtin value, or drops one name's value where
/// a name is given.
pub fn apply_remove(
    config: &mut FileConfig,
    key: &str,
    name: Option<&str>,
    target_os: &str,
) -> (r: Result<String, String>)
    ensures
        r is Ok ==> remove_setting(old(config)@, target_os@, key@, text_of(name)) == Ok::<
            (Settings, Seq<char>),
            Seq<char>,
        >((final(config)@, r->Ok_0@)),
        r is Err ==> remove_setting(old(config)@, target_os@, key@, text_of(name)) == Err::<
            (Settings, Seq<char>),
            Seq<char>,
        >(r->Err_0@) && final(config)@ == old(config)@,
{
    proof {
        reveal(remove_setting);
    }
    if let Some(name) = name {
        return match find_setting(key) {
            Some(Setting::Percent(rule)) => if drop_override(config, rule, name) {
                Ok("removed ".to_owned().concat(key).concat(" override for ").concat(name))
            } else {
                proof {
                    let m = overrides_of(old(config)@, rule);
                    assert(m.remove(name@) =~= m);
                }
                Err("no ".to_owned().concat(key).concat(" override found for ").concat(name))
            },
            _ => Err(key.to_owned().concat(" has no per-name overrides")),
        };
    }
    let setting = match find_setting(key) {
        Some(setting) => setting,
        None => {
            return Err(unknown_key(key));
        },
    };
    let defaults = CollectorConfig::default(target_os);
    match setting {
        Setting::Interval => {
            config.daemon.interval = None;
        },
        Setting::History => {
            config.daemon.history = None;
        },
        Setting::Detach => {
            config.daemon.detach = None;
        },
        Setting::Cadence(which) => {
            let mut c = take_collector(config, target_os);
            set_cadence(&mut c, which, get_cadence(&defaults, which));
            config.collector = Some(c);
        },
        Setting::ProcessBoost => {
            let mut c = take_collector(config, target_os);
            c.process_boost_cpu_cores = defaults.process_boost_cpu_cores;
            config.collector = Some(c);
        },
        Setting::MaxProcesses => {
            let mut c = take_collector(config, target_os);
            c.max_processes = defaults.max_processes;
            config.collector = Some(c);
        },
        Setting::Toggle(which) => {
            let mut c = take_collector(config, target_os);
            set_toggle(&mut c, which, get_toggle(&defaults, which));
            config.collector = Some(c);
        },
        Setting::Percent(rule) => {
            set_percent(config, rule, None);
        },
        Setting::MemBytes => {
            config.alerts.mem_bytes = None;
        },
        Setting::AppMemBytes => {
            config.alerts.app_mem_bytes = None;
        },
        Setting::Cooldown => {
            config.alerts.cooldown = None;
        },
        Setting::Pressure => {
            config.alerts.pressure = None;
        },
        Setting::Template => {
            config.alerts.template = None;
        },
    }
    Ok(key.to_owned().concat(" reset to default"))
}

/// A cadence that is set twice is as it was set last.
proof fn lemma_cadence_twice(c: CollectorView, which: Cadence, first: Duration, last: Duration)
    ensures
        with_cadence(with_cadence(c, which, first), which, last) == with_cadence(c, which, last),
{
    reveal(with_cadence);
}

/// A toggle that is set twice is as it was set last.
proof fn lemma_toggle_twice(c: CollectorView, which: Toggle, first: bool, last: bool)
    ensures
        with_toggle(with_toggle(c, which, first), which, last) == with_toggle(c, which, last),
{
    reveal(with_toggle);
}

/// Whether a setting is one of the collector's.
spec fn is_collectors(setting: Setting) -> bool {
    setting is Cadence || setting is Toggle || setting is ProcessBoost || setting is MaxProcesses
}

/// Nothing of a value is left once its setting is taken back: the collector's.
proof fn lemma_collector_reset_after_add(
    s: Settings,
    target: Seq<char>,
    setting: Setting,
    key: Seq<char>,
    value: Seq<char>,
)
    requires
        add_as(s, target, Some(setting), key, value) is Ok,
        is_collectors(setting),
    ensures
        reset_setting(
            add_as(s, target, Some(setting), key, value)->Ok_0.0,
            target,
            setting,
        ) == reset_setting(s, target, setting),
{
    reveal(add_as);
    let c = collector_of(s, target);
    let d = default_collector(target);
    match setting {
        Setting::Cadence(which) => {
            let span = Duration { nanos: (duration_of(value)->Ok_0 * NANOS_PER_MILLI) as u128 };
            lemma_cadence_twice(c, which, span, cadence_of(d, which));
        },
        Setting::Toggle(which) => {
            let on = bool_of(trimmed(value))->0;
            lemma_toggle_twice(c, which, on, toggle_of(d, which));
        },
        _ => {},
    }
}

/// Nothing of a value is left once its setting is taken back: all the others.
proof fn lemma_other_reset_after_add(
    s: Settings,
    target: Seq<char>,
    setting: Setting,
    key: Seq<char>,
    value: Seq<char>,
)
    requires
        add_as(s, target, Some(setting), key, value) is Ok,
        !is_collectors(setting),
        setting is Percent ==> first_index(value, '=') >= value.len(),
    ensures
        reset_setting(
            add_as(s, target, Some(setting), key, value)->Ok_0.0,
            target,
            setting,
        ) == reset_setting(s, target, setting),
{
    reveal(add_as);
}

/// Setting a value and taking the setting back is the same as taking it back
/// alone: nothing of the value is left.
pub proof fn law_remove_undoes_add(
    s: Settings,
    target: Seq<char>,
    key: Seq<char>,
    value: Seq<char>,
)
    requires
        add_setting(s, target, key, value) is Ok,
        setting_of(key) is Some ==> setting_of(key)->0 is Percent ==> first_index(value, '=')
            >= value.len(),
    ensures
        remove_setting(
            add_setting(s, target, key, value)->Ok_0.0,
            target,
            key,
            None,
        ) == remove_setting(s, target, key, None),
{
    reveal(remove_setting);
    let setting = setting_of(key);
    if setting is None {
        reveal(add_as);
    }
    if setting is Some {
        if is_collectors(setting->0) {
            lemma_collector_reset_after_add(s, target, setting->0, key, value);
        } else {
            lemma_other_reset_after_add(s, target, setting->0, key, value);
        }
    }
}

/// A name that had no value of its own is given one and loses it again: then
/// everything is as it was.
pub proof fn law_override_round_trip(
    s: Settings,
    target: Seq<char>,
    key: Seq<char>,
    value: Seq<char>,
)
    requires
        add_setting(s, target, key, value) is Ok,
        setting_of(key) is Some,
        setting_of(key)->0 is Percent,
        first_index(value, '=') < value.len(),
        !overrides_of(s, setting_of(key)->0->Percent_0).contains_key(
            trimmed(value.take(first_index(value, '='))),
        ),
    ensures
        ({
            let name = trimmed(value.take(first_index(value, '=')));
            let given = add_setting(s, target, key, value)->Ok_0.0;
            &&& remove_setting(given, target, key, Some(name)) is Ok
            &&& remove_setting(given, target, key, Some(name))->Ok_0.0 == s
        }),
{
    reveal(add_as);
    reveal(remove_setting);
    let rule = setting_of(key)->0->Percent_0;
    let name = trimmed(value.take(first_index(value, '=')));
    let m = overrides_of(s, rule);
    let percent = stored(
        reading_of(trimmed(value.skip(first_index(value, '=') + 1)))->0,
    );
    assert(m.insert(name, percent).remove(name) =~= m);
}

/// A value for one name leaves the rule's own percentage, the other names, every
/// other rule and every other setting as they are.
pub proof fn law_override_touches_one_name(
    s: Settings,
    target: Seq<char>,
    key: Seq<char>,
    value: Seq<char>,
    other: Rule,
    other_name: Seq<char>,
)
    requires
        add_setting(s, target, key, value) is Ok,
        setting_of(key) is Some,
        setting_of(key)->0 is Percent,
        first_index(value, '=') < value.len(),
        other != setting_of(key)->0->Percent_0 || other_name != trimmed(
            value.take(first_index(value, '=')),
        ),
    ensures
        ({
            let t = add_setting(s, target, key, value)->Ok_0.0;
            let rule = setting_of(key)->0->Percent_0;
            &&& overrides_of(t, other).contains_key(other_name) == overrides_of(
                s,
                other,
            ).contains_key(other_name)
            &&& overrides_of(t, other).contains_key(other_name) ==> overrides_of(t, other)[other_name]
                == overrides_of(s, other)[other_name]
            &&& with_overrides(t, rule, overrides_of(s, rule)) == s
        }),
{
    reveal(add_as);
}

} // verus!
