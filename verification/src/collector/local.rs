//! The local collector: what is due for a refresh, and what becomes of the raw
//! readings.
use std::collections::HashMap;
use vstd::prelude::*;
use vstd::string::*;
use super::cpu::{
    boosted, memory_pressure, percent_ratio, process_boost_active, ratio_percent,
    split_perf_levels, cores_in, level_usages, CpuTimeBaseline,
};
use super::disks::{
    build_disks, counters_of, dedupe_disks_by_name, deduped, disk_key, disk_snapshots,
    is_new_mount, key_of, new_mount, DiskCounters, RawDisk,
};
use super::drives::{build_drives, build_gpus, drive_snapshot, gpu_snapshot};
use super::networks::{
    build_networks, net_counters_of, network_snapshots, NetCounters, RawNetwork,
};
use super::processes::{
    baselines_of, build_groups, build_processes, cpu_percents, percents_of, process_counters_of,
    shows_groups, shows_selection, RawProcess,
};
use super::registry::{DriveCounters, GpuSample};
use super::sensors::{build_temperatures, hottest_first, RawSensor};
use super::totals::{io_totals_from, totals};
use crate::config::{CollectorConfig, CollectorView};
use crate::overrides::NameMap;
use crate::rate::{rate_of, rate_per_sec};
use crate::snapshot::{
    BatterySnapshot, Capabilities, CpuSnapshot, DiskSnapshot, DriveSnapshot, GpuSnapshot, HostInfo,
    LoadSnapshot, MemorySnapshot, NetworkSnapshot, ProcessGroupSnapshot, ProcessSnapshot,
    SystemSnapshot, TemperatureSnapshot,
};
use crate::text::{chars_of, string_of, trim, trimmed};
use crate::time::{nanos_since, Duration, Instant};

verus! {

broadcast use vstd::std_specs::hash::group_hash_axioms;

/// When each part of the system was last refreshed.
#[derive(Debug, Clone, Copy, PartialEq, Eq, Structural)]
pub struct Timers {
    pub disk_storage: Option<Instant>,
    pub disk_io: Option<Instant>,
    pub network: Option<Instant>,
    pub process: Option<Instant>,
    pub cpu_frequency: Option<Instant>,
    pub temperature: Option<Instant>,
    pub battery: Option<Instant>,
    pub gpu: Option<Instant>,
    pub drive: Option<Instant>,
}

/// Whether something is due: it was never refreshed, or long enough ago.
pub open spec fn is_due(interval: Duration, last: Option<Instant>, now: Instant) -> bool {
    last is None || nanos_since(now, last->0) >= interval.nanos
}

/// Whether something is due.
pub fn due(interval: Duration, last: Option<Instant>, now: Instant) -> (r: bool)
    ensures
        r == is_due(interval, last, now),
{
    match last {
        Some(t) => now.duration_since(t).nanos >= interval.nanos,
        None => true,
    }
}

/// The time since the refresh before, where there was one.
pub open spec fn elapsed_since(last: Option<Instant>, now: Instant) -> Option<Duration> {
    match last {
        Some(t) => Some(Duration { nanos: nanos_since(now, t) as u128 }),
        None => None,
    }
}

fn elapsed(last: Option<Instant>, now: Instant) -> (r: Option<Duration>)
    ensures
        r == elapsed_since(last, now),
{
    match last {
        Some(t) => Some(now.duration_since(t)),
        None => None,
    }
}

/// An interval of zero is always due.
pub proof fn law_zero_interval_is_always_due(last: Option<Instant>, now: Instant)
    ensures
        is_due(Duration { nanos: 0 }, last, now),
{
}

/// What to do about a list that refreshes on a cadence.
#[derive(Debug, Clone, Copy, PartialEq, Eq, Structural)]
pub enum Plan {
    /// It is not collected
    Off,
    /// The last list is still good
    Reuse,
    /// Read it anew; this long after the reading before
    Refresh(Option<Duration>),
}

/// What to do about a list.
pub open spec fn plan_for(
    collect: bool,
    interval: Duration,
    last: Option<Instant>,
    now: Instant,
) -> Plan {
    if !collect {
        Plan::Off
    } else if is_due(interval, last, now) {
        Plan::Refresh(elapsed_since(last, now))
    } else {
        Plan::Reuse
    }
}

fn make_plan(collect: bool, interval: Duration, last: Option<Instant>, now: Instant) -> (r: Plan)
    ensures
        r == plan_for(collect, interval, last, now),
{
    if !collect {
        Plan::Off
    } else if due(interval, last, now) {
        Plan::Refresh(elapsed(last, now))
    } else {
        Plan::Reuse
    }
}

/// The time of a refresh that a plan asks for, or the one before.
pub open spec fn stamp(plan: Plan, last: Option<Instant>, now: Instant) -> Option<Instant> {
    if plan is Refresh {
        Some(now)
    } else {
        last
    }
}

fn new_stamp(plan: Plan, last: Option<Instant>, now: Instant) -> (r: Option<Instant>)
    ensures
        r == stamp(plan, last, now),
{
    match plan {
        Plan::Refresh(_) => Some(now),
        _ => last,
    }
}

/// The processors as the system reports them.
#[derive(Debug, Clone)]
pub struct RawCpu {
    /// Usage of all cores
    pub usage_percent: u64,
    pub per_core_usage: Vec<u64>,
    /// Zero where a core's frequency is unknown
    pub per_core_frequency_mhz: Vec<u64>,
    pub brands: Vec<String>,
    pub physical_cores: Option<u32>,
}

/// Memory as the system reports it.
#[derive(Debug, Clone, Copy)]
pub struct RawMemory {
    pub total_bytes: u64,
    pub used_bytes: u64,
    pub available_bytes: u64,
    pub swap_total_bytes: u64,
    pub swap_used_bytes: u64,
    pub compressed_bytes: Option<u64>,
    pub pressure_level: Option<u64>,
    pub swap: SwapCounters,
    /// Available memory in percent, by the kernel's own count
    pub kernel_available_percent: Option<u64>,
}

/// What the memory compressor has moved so far, where the system counts it.
#[derive(Debug, Clone, Copy, PartialEq, Eq, Structural)]
pub struct SwapCounters {
    pub ins: Option<u64>,
    pub outs: Option<u64>,
    /// How often the kernel saw itself moving the same segments out and in
    pub thrashes: Option<u64>,
}

/// The compressor's counters at one time.
#[derive(Debug, Clone, Copy, PartialEq, Eq, Structural)]
pub struct SwapReading {
    pub at: Instant,
    pub counters: SwapCounters,
}

/// A battery as the system reports it.
pub enum RawBattery {
    /// The batteries could not be listed, or there is none
    Unreadable,
    /// The first battery, where it could be read
    Read(Option<BatterySnapshot>),
}

/// What the collector remembers between two rounds.
pub ghost struct CollectorState {
    pub config: CollectorView,
    pub timers: Timers,
    pub disk_counters: Map<Seq<char>, DiskCounters>,
    pub net_counters: Map<Seq<char>, NetCounters>,
    pub process_counters: Map<u32, DiskCounters>,
    pub cpu_times: Map<u32, CpuTimeBaseline>,
    pub cpu_percents: Map<u32, u64>,
    pub processes: Option<Seq<ProcessSnapshot>>,
    pub groups: Option<Seq<ProcessGroupSnapshot>>,
    pub disks: Option<Seq<DiskSnapshot>>,
    pub networks: Option<Seq<NetworkSnapshot>>,
    pub temperatures: Option<Seq<TemperatureSnapshot>>,
    pub battery: Option<BatterySnapshot>,
    pub gpus: Option<Seq<GpuSnapshot>>,
    pub drives: Option<Seq<DriveSnapshot>>,
    pub drive_counters: Seq<DriveCounters>,
    pub swap: Option<SwapReading>,
    pub perf_levels: Seq<(String, u32)>,
}

/// The local collector.
pub struct LocalCollector {
    config: CollectorConfig,
    timers: Timers,
    last_disk_counters: NameMap<DiskCounters>,
    last_net_counters: NameMap<NetCounters>,
    last_process_disk_counters: HashMap<u32, DiskCounters>,
    last_cpu_times: HashMap<u32, CpuTimeBaseline>,
    cpu_percents: HashMap<u32, u64>,
    cached_processes: Option<Vec<ProcessSnapshot>>,
    cached_process_groups: Option<Vec<ProcessGroupSnapshot>>,
    cached_disks: Option<Vec<DiskSnapshot>>,
    cached_networks: Option<Vec<NetworkSnapshot>>,
    cached_temperatures: Option<Vec<TemperatureSnapshot>>,
    cached_battery: Option<BatterySnapshot>,
    cached_gpus: Option<Vec<GpuSnapshot>>,
    cached_drives: Option<Vec<DriveSnapshot>>,
    last_drive_counters: Vec<DriveCounters>,
    last_swap: Option<SwapReading>,
    perf_levels: Vec<(String, u32)>,
}

/// The items of an optional list.
pub open spec fn list_of<T>(list: Option<Vec<T>>) -> Option<Seq<T>> {
    match list {
        Some(list) => Some(list@),
        None => None,
    }
}

fn copy_disks(list: &Vec<DiskSnapshot>) -> (r: Vec<DiskSnapshot>)
    ensures
        r@ == list@,
{
    let mut r: Vec<DiskSnapshot> = Vec::new();
    for i in 0..list.len()
        invariant
            r@ =~= list@.take(i as int),
    {
        r.push(list[i].duplicate());
    }
    assert(list@.take(list.len() as int) =~= list@);
    r
}

fn copy_networks(list: &Vec<NetworkSnapshot>) -> (r: Vec<NetworkSnapshot>)
    ensures
        r@ == list@,
{
    let mut r: Vec<NetworkSnapshot> = Vec::new();
    for i in 0..list.len()
        invariant
            r@ =~= list@.take(i as int),
    {
        r.push(list[i].duplicate());
    }
    assert(list@.take(list.len() as int) =~= list@);
    r
}

fn copy_processes(list: &Vec<ProcessSnapshot>) -> (r: Vec<ProcessSnapshot>)
    ensures
        r@ == list@,
{
    let mut r: Vec<ProcessSnapshot> = Vec::new();
    for i in 0..list.len()
        invariant
            r@ =~= list@.take(i as int),
    {
        r.push(list[i].duplicate());
    }
    assert(list@.take(list.len() as int) =~= list@);
    r
}

fn copy_groups(list: &Vec<ProcessGroupSnapshot>) -> (r: Vec<ProcessGroupSnapshot>)
    ensures
        r@ == list@,
{
    let mut r: Vec<ProcessGroupSnapshot> = Vec::new();
    for i in 0..list.len()
        invariant
            r@ =~= list@.take(i as int),
    {
        r.push(list[i].duplicate());
    }
    assert(list@.take(list.len() as int) =~= list@);
    r
}

fn copy_temperatures(list: &Vec<TemperatureSnapshot>) -> (r: Vec<TemperatureSnapshot>)
    ensures
        r@ == list@,
{
    let mut r: Vec<TemperatureSnapshot> = Vec::new();
    for i in 0..list.len()
        invariant
            r@ =~= list@.take(i as int),
    {
        r.push(list[i].duplicate());
    }
    assert(list@.take(list.len() as int) =~= list@);
    r
}

fn copy_gpus(list: &Vec<GpuSnapshot>) -> (r: Vec<GpuSnapshot>)
    ensures
        r@ == list@,
{
    let mut r: Vec<GpuSnapshot> = Vec::new();
    for i in 0..list.len()
        invariant
            r@ =~= list@.take(i as int),
    {
        r.push(list[i].duplicate());
    }
    assert(list@.take(list.len() as int) =~= list@);
    r
}

fn copy_drives(list: &Vec<DriveSnapshot>) -> (r: Vec<DriveSnapshot>)
    ensures
        r@ == list@,
{
    let mut r: Vec<DriveSnapshot> = Vec::new();
    for i in 0..list.len()
        invariant
            r@ =~= list@.take(i as int),
    {
        r.push(list[i].duplicate());
    }
    assert(list@.take(list.len() as int) =~= list@);
    r
}

/// What a fresh collector remembers. The volumes' capacity and the processor
/// frequency have just been read.
pub open spec fn fresh_collector(
    config: CollectorView,
    perf_levels: Seq<(String, u32)>,
    now: Instant,
) -> CollectorState {
    CollectorState {
        config,
        timers: Timers {
            disk_storage: if config.collect_disks {
                Some(now)
            } else {
                None
            },
            disk_io: None,
            network: None,
            process: None,
            cpu_frequency: Some(now),
            temperature: None,
            battery: None,
            gpu: None,
            drive: None,
        },
        disk_counters: Map::empty(),
        net_counters: Map::empty(),
        process_counters: Map::empty(),
        cpu_times: Map::empty(),
        cpu_percents: Map::empty(),
        processes: None,
        groups: None,
        disks: None,
        networks: None,
        temperatures: None,
        battery: None,
        gpus: None,
        drives: None,
        drive_counters: Seq::empty(),
        swap: None,
        perf_levels,
    }
}

/// The first frequency that is known.
pub open spec fn first_known(frequencies: Seq<u64>) -> Option<u64>
    decreases frequencies.len(),
{
    if frequencies.len() == 0 {
        None
    } else if frequencies[0] > 0 {
        Some(frequencies[0])
    } else {
        first_known(frequencies.drop_first())
    }
}

/// The first brand that is not blank, trimmed.
pub open spec fn first_brand(brands: Seq<String>) -> Option<Seq<char>>
    decreases brands.len(),
{
    if brands.len() == 0 {
        None
    } else if trimmed(brands[0]@).len() > 0 {
        Some(trimmed(brands[0]@))
    } else {
        first_brand(brands.drop_first())
    }
}

fn find_frequency(frequencies: &Vec<u64>) -> (r: Option<u64>)
    ensures
        r == first_known(frequencies@),
{
    let mut k: usize = 0;
    assert(frequencies@.skip(0) =~= frequencies@);
    while k < frequencies.len()
        invariant
            k <= frequencies@.len(),
            first_known(frequencies@) == first_known(frequencies@.skip(k as int)),
        decreases frequencies@.len() - k,
    {
        assert(frequencies@.skip(k as int).drop_first() =~= frequencies@.skip(k as int + 1));
        if frequencies[k] > 0 {
            return Some(frequencies[k]);
        }
        k += 1;
    }
    None
}

fn find_brand(brands: &Vec<String>) -> (r: Option<String>)
    ensures
        super::processes::text_view(r) == first_brand(brands@),
{
    let mut k: usize = 0;
    assert(brands@.skip(0) =~= brands@);
    while k < brands.len()
        invariant
            k <= brands@.len(),
            first_brand(brands@) == first_brand(brands@.skip(k as int)),
        decreases brands@.len() - k,
    {
        assert(brands@.skip(k as int).drop_first() =~= brands@.skip(k as int + 1));
        let name = trim(&chars_of(brands[k].as_str()));
        if name.len() > 0 {
            return Some(string_of(&name));
        }
        k += 1;
    }
    None
}

impl LocalCollector {
    /// What the collector remembers.
    pub closed spec fn view(&self) -> CollectorState {
        CollectorState {
            config: self.config@,
            timers: self.timers,
            disk_counters: self.last_disk_counters.map(),
            net_counters: self.last_net_counters.map(),
            process_counters: self.last_process_disk_counters@,
            cpu_times: self.last_cpu_times@,
            cpu_percents: self.cpu_percents@,
            processes: list_of(self.cached_processes),
            groups: list_of(self.cached_process_groups),
            disks: list_of(self.cached_disks),
            networks: list_of(self.cached_networks),
            temperatures: list_of(self.cached_temperatures),
            battery: self.cached_battery,
            gpus: list_of(self.cached_gpus),
            drives: list_of(self.cached_drives),
            drive_counters: self.last_drive_counters@,
            swap: self.last_swap,
            perf_levels: self.perf_levels@,
        }
    }

    /// A collector with nothing collected yet.
    pub fn new(config: CollectorConfig, perf_levels: Vec<(String, u32)>, now: Instant) -> (r:
        LocalCollector)
        ensures
            r@ == fresh_collector(config@, perf_levels@, now),
    {
        let disk_storage: Option<Instant> = if config.collect_disks {
            Some(now)
        } else {
            None
        };
        let r = LocalCollector {
            config,
            timers: Timers {
                disk_storage,
                disk_io: None,
                network: None,
                process: None,
                cpu_frequency: Some(now),
                temperature: None,
                battery: None,
                gpu: None,
                drive: None,
            },
            last_disk_counters: NameMap::new(),
            last_net_counters: NameMap::new(),
            last_process_disk_counters: HashMap::new(),
            last_cpu_times: HashMap::new(),
            cpu_percents: HashMap::new(),
            cached_processes: None,
            cached_process_groups: None,
            cached_disks: None,
            cached_networks: None,
            cached_temperatures: None,
            cached_battery: None,
            cached_gpus: None,
            cached_drives: None,
            last_drive_counters: Vec::new(),
            last_swap: None,
            perf_levels,
        };
        assert(r.last_drive_counters@ =~= Seq::empty());
        assert(r.last_process_disk_counters@ =~= Map::empty());
        assert(r.last_cpu_times@ =~= Map::empty());
        assert(r.cpu_percents@ =~= Map::empty());
        r
    }

    /// The collector's settings.
    pub fn config(&self) -> (r: &CollectorConfig)
        ensures
            r@ == self@.config,
    {
        &self.config
    }

    /// Whether the processor frequency is read along with the usage.
    pub fn refresh_cpu(&mut self, now: Instant) -> (r: bool)
        ensures
            r == frequency_due(old(self)@, now),
            final(self)@ == after_frequency_plan(old(self)@, now),
    {
        let r: bool = due(
            self.config.cpu_frequency_refresh_interval,
            self.timers.cpu_frequency,
            now,
        );
        if r {
            self.timers.cpu_frequency = Some(now);
        }
        r
    }

    /// What to do about the processes. They are read anew when they are due, and
    /// whenever enough cores are busy.
    pub fn plan_processes(&mut self, now: Instant, cpu_usage_percent: u64, logical_cores: u32) -> (r:
        Plan)
        ensures
            r == process_plan(old(self)@, now, cpu_usage_percent, logical_cores),
            final(self)@ == after_process_plan(
                old(self)@,
                now,
                cpu_usage_percent,
                logical_cores,
            ),
    {
        let boost: bool = process_boost_active(
            self.config.process_boost_cpu_cores,
            cpu_usage_percent,
            logical_cores,
        );
        let interval = if boost {
            Duration::zero()
        } else {
            self.config.process_refresh_interval
        };
        let plan = make_plan(self.config.collect_processes, interval, self.timers.process, now);
        self.timers.process = new_stamp(plan, self.timers.process, now);
        plan
    }

    /// Derives the processor use of every process from its counter.
    pub fn update_cpu_percents(&mut self, elapsed: Option<Duration>, raws: &Vec<RawProcess>)
        ensures
            final(self)@ == (CollectorState {
                cpu_percents: percents_of(old(self)@.cpu_times, raws@, elapsed),
                cpu_times: baselines_of(raws@),
                ..old(self)@
            }),
    {
        let (percents, baselines) = cpu_percents(&self.last_cpu_times, raws, elapsed);
        self.cpu_percents = percents;
        self.last_cpu_times = baselines;
    }

    /// What to do about the volumes, and whether their capacity is read too.
    pub fn plan_disks(&mut self, now: Instant) -> (r: (Plan, bool))
        ensures
            r.0 == disk_plan(old(self)@, now),
            r.1 == capacity_due(old(self)@, now),
            final(self)@ == after_disk_plan(old(self)@, now),
    {
        let plan = make_plan(
            self.config.collect_disks,
            self.config.disk_io_refresh_interval,
            self.timers.disk_io,
            now,
        );
        let mut storage: bool = false;
        if let Plan::Refresh(_) = plan {
            storage = due(
                self.config.disk_storage_refresh_interval,
                self.timers.disk_storage,
                now,
            );
            if storage {
                self.timers.disk_storage = Some(now);
            }
        }
        self.timers.disk_io = new_stamp(plan, self.timers.disk_io, now);
        (plan, storage)
    }

    /// Whether a volume is new, so that its capacity must be read out of turn.
    pub fn needs_capacity(&self, name: &str, mount_point: &str) -> (r: bool)
        ensures
            r == new_mount(self@.disk_counters, key_of(name@, mount_point@)),
    {
        is_new_mount(disk_key(name, mount_point).as_str(), &self.last_disk_counters)
    }

    /// The volumes of this round. The readings count when the plan asked for
    /// them.
    pub fn collect_disks(&mut self, plan: Plan, raws: &Vec<RawDisk>) -> (r: Option<
        Vec<DiskSnapshot>,
    >)
        ensures
            list_of(r) == disks_shown(old(self)@, plan, raws@),
            final(self)@ == after_disks(old(self)@, plan, raws@),
    {
        match plan {
            Plan::Off => None,
            Plan::Reuse => match &self.cached_disks {
                Some(list) => Some(copy_disks(list)),
                None => None,
            },
            Plan::Refresh(elapsed) => {
                let (all, counters) = build_disks(&self.last_disk_counters, raws, elapsed);
                self.last_disk_counters = counters;
                let shown = if self.config.dedupe_disks {
                    dedupe_disks_by_name(&all)
                } else {
                    all
                };
                self.cached_disks = Some(copy_disks(&shown));
                Some(shown)
            },
        }
    }

    /// What to do about the network interfaces.
    pub fn plan_networks(&mut self, now: Instant) -> (r: Plan)
        ensures
            r == network_plan(old(self)@, now),
            final(self)@ == after_network_plan(old(self)@, now),
    {
        let plan = make_plan(
            self.config.collect_networks,
            self.config.network_refresh_interval,
            self.timers.network,
            now,
        );
        self.timers.network = new_stamp(plan, self.timers.network, now);
        plan
    }

    /// The network interfaces of this round. The readings count when the plan
    /// asked for them.
    pub fn collect_networks(&mut self, plan: Plan, raws: &Vec<RawNetwork>) -> (r: Option<
        Vec<NetworkSnapshot>,
    >)
        ensures
            list_of(r) == networks_shown(old(self)@, plan, raws@),
            final(self)@ == after_networks(old(self)@, plan, raws@),
    {
        match plan {
            Plan::Off => None,
            Plan::Reuse => match &self.cached_networks {
                Some(list) => Some(copy_networks(list)),
                None => None,
            },
            Plan::Refresh(elapsed) => {
                let (shown, counters) = build_networks(&self.last_net_counters, raws, elapsed);
                self.last_net_counters = counters;
                self.cached_networks = Some(copy_networks(&shown));
                Some(shown)
            },
        }
    }

    /// The processes of this round. The readings count when the plan asked for
    /// them.
    pub fn collect_processes(&mut self, plan: Plan, raws: &Vec<RawProcess>) -> (r: Option<
        Vec<ProcessSnapshot>,
    >)
        ensures
            processes_shown(list_of(r), old(self)@, plan, raws@),
            final(self)@ == after_processes(old(self)@, plan, raws@, list_of(r)),
    {
        match plan {
            Plan::Off => None,
            Plan::Reuse => match &self.cached_processes {
                Some(list) => Some(copy_processes(list)),
                None => None,
            },
            Plan::Refresh(elapsed) => {
                let shown = build_processes(
                    raws,
                    &self.cpu_percents,
                    self.config.max_processes,
                    self.config.collect_process_disk_io,
                    &self.last_process_disk_counters,
                    elapsed,
                );
                let mut counters: HashMap<u32, DiskCounters> = HashMap::new();
                assert(counters@ =~= Map::empty());
                if self.config.collect_process_disk_io {
                    for i in 0..raws.len()
                        invariant
                            counters@ == process_counters_of(raws@.take(i as int)),
                    {
                        assert(raws@.take(i as int + 1).drop_last() =~= raws@.take(i as int));
                        counters.insert(raws[i].pid, raws[i].disk);
                    }
                    assert(raws@.take(raws.len() as int) =~= raws@);
                }
                self.last_process_disk_counters = counters;
                self.cached_processes = Some(copy_processes(&shown));
                Some(shown)
            },
        }
    }

    /// The applications of this round. The readings count when the plan asked for
    /// them.
    pub fn collect_process_groups(&mut self, plan: Plan, raws: &Vec<RawProcess>) -> (r: Option<
        Vec<ProcessGroupSnapshot>,
    >)
        requires
            raws@.len() <= u32::MAX,
        ensures
            groups_shown(list_of(r), old(self)@, plan, raws@),
            final(self)@ == after_groups(old(self)@, plan, list_of(r)),
    {
        if !self.config.collect_process_groups {
            return None;
        }
        match plan {
            Plan::Off => None,
            Plan::Reuse => match &self.cached_process_groups {
                Some(list) => Some(copy_groups(list)),
                None => None,
            },
            Plan::Refresh(elapsed) => {
                let shown = build_groups(
                    raws,
                    &self.cpu_percents,
                    self.config.max_processes,
                    self.config.collect_process_disk_io,
                    elapsed,
                );
                self.cached_process_groups = Some(copy_groups(&shown));
                Some(shown)
            },
        }
    }

    /// How many processes there are, where processes are collected.
    pub fn collect_total_processes(&self, table_len: u32) -> (r: Option<u32>)
        ensures
            r == if self@.config.collect_processes {
                Some(table_len)
            } else {
                None
            },
    {
        if self.config.collect_processes {
            Some(table_len)
        } else {
            None
        }
    }

    /// What to do about the battery, given whether the system can read one.
    pub fn plan_battery(&mut self, now: Instant, readable: bool) -> (r: Plan)
        ensures
            r == battery_plan(old(self)@, now, readable),
            final(self)@ == after_battery_plan(old(self)@, now, readable),
    {
        let plan = make_plan(
            self.config.collect_battery && readable,
            self.config.battery_refresh_interval,
            self.timers.battery,
            now,
        );
        self.timers.battery = new_stamp(plan, self.timers.battery, now);
        plan
    }

    /// The battery of this round. A battery that cannot be listed leaves the last
    /// reading in place.
    pub fn collect_battery(&mut self, plan: Plan, raw: RawBattery) -> (r: Option<BatterySnapshot>)
        ensures
            r == battery_shown(old(self)@, plan, raw),
            final(self)@ == after_battery(old(self)@, plan, raw),
    {
        match plan {
            Plan::Off => None,
            Plan::Reuse => match &self.cached_battery {
                Some(b) => Some(b.duplicate()),
                None => None,
            },
            Plan::Refresh(_) => match raw {
                RawBattery::Unreadable => None,
                RawBattery::Read(b) => {
                    self.cached_battery = match &b {
                        Some(b) => Some(b.duplicate()),
                        None => None,
                    };
                    b
                },
            },
        }
    }

    /// What to do about the temperatures.
    pub fn plan_temperatures(&mut self, now: Instant) -> (r: Plan)
        ensures
            r == temperature_plan(old(self)@, now),
            final(self)@ == after_temperature_plan(old(self)@, now),
    {
        let plan = make_plan(
            self.config.collect_temperatures,
            self.config.temperature_refresh_interval,
            self.timers.temperature,
            now,
        );
        self.timers.temperature = new_stamp(plan, self.timers.temperature, now);
        plan
    }

    /// The temperatures of this round, the hottest first.
    pub fn collect_temperatures(&mut self, plan: Plan, raws: &Vec<RawSensor>) -> (r: Option<
        Vec<TemperatureSnapshot>,
    >)
        ensures
            list_of(r) == temperatures_shown(old(self)@, plan, raws@),
            final(self)@ == after_temperatures(old(self)@, plan, raws@),
    {
        match plan {
            Plan::Off => None,
            Plan::Reuse => match &self.cached_temperatures {
                Some(list) => Some(copy_temperatures(list)),
                None => None,
            },
            Plan::Refresh(_) => {
                let shown = build_temperatures(raws);
                self.cached_temperatures = Some(copy_temperatures(&shown));
                Some(shown)
            },
        }
    }

    /// What to do about the graphics processors.
    pub fn plan_gpus(&mut self, now: Instant) -> (r: Plan)
        ensures
            r == gpu_plan(old(self)@, now),
            final(self)@ == after_gpu_plan(old(self)@, now),
    {
        let plan = make_plan(
            self.config.collect_gpu,
            self.config.gpu_refresh_interval,
            self.timers.gpu,
            now,
        );
        self.timers.gpu = new_stamp(plan, self.timers.gpu, now);
        plan
    }

    /// The graphics processors of this round. A reading that failed leaves
    /// nothing to show until the next.
    pub fn collect_gpus(&mut self, plan: Plan, raws: &Option<Vec<GpuSample>>) -> (r: Option<
        Vec<GpuSnapshot>,
    >)
        ensures
            list_of(r) == gpus_shown(old(self)@, plan, list_of(*raws)),
            final(self)@ == after_gpus(old(self)@, plan, list_of(*raws)),
    {
        match plan {
            Plan::Off => None,
            Plan::Reuse => match &self.cached_gpus {
                Some(list) => Some(copy_gpus(list)),
                None => None,
            },
            Plan::Refresh(_) => match raws {
                Some(samples) => {
                    let shown = build_gpus(samples);
                    self.cached_gpus = Some(copy_gpus(&shown));
                    Some(shown)
                },
                None => {
                    self.cached_gpus = None;
                    None
                },
            },
        }
    }

    /// What to do about the drives.
    pub fn plan_drives(&mut self, now: Instant) -> (r: Plan)
        ensures
            r == drive_plan(old(self)@, now),
            final(self)@ == after_drive_plan(old(self)@, now),
    {
        let plan = make_plan(
            self.config.collect_drives,
            self.config.drive_refresh_interval,
            self.timers.drive,
            now,
        );
        self.timers.drive = new_stamp(plan, self.timers.drive, now);
        plan
    }

    /// The drives of this round. A reading that failed leaves nothing to show
    /// and nothing to compare with.
    pub fn collect_drives(&mut self, plan: Plan, raws: Option<Vec<DriveCounters>>) -> (r: Option<
        Vec<DriveSnapshot>,
    >)
        ensures
            list_of(r) == drives_shown(old(self)@, plan, list_of(raws)),
            final(self)@ == after_drives(old(self)@, plan, list_of(raws)),
    {
        match plan {
            Plan::Off => None,
            Plan::Reuse => match &self.cached_drives {
                Some(list) => Some(copy_drives(list)),
                None => None,
            },
            Plan::Refresh(elapsed) => match raws {
                Some(counters) => {
                    let shown = build_drives(&self.last_drive_counters, &counters, elapsed);
                    self.cached_drives = Some(copy_drives(&shown));
                    self.last_drive_counters = counters;
                    Some(shown)
                },
                None => {
                    self.cached_drives = None;
                    self.last_drive_counters = Vec::new();
                    assert(self.last_drive_counters@ =~= Seq::empty());
                    None
                },
            },
        }
    }

    /// Turns the graphics processors on or off.
    pub fn set_collect_gpu(&mut self, on: bool)
        ensures
            final(self)@ == (CollectorState {
                config: CollectorView { collect_gpu: on, ..old(self)@.config },
                ..old(self)@
            }),
    {
        self.config.collect_gpu = on;
    }

    /// Turns the drives on or off.
    pub fn set_collect_drives(&mut self, on: bool)
        ensures
            final(self)@ == (CollectorState {
                config: CollectorView { collect_drives: on, ..old(self)@.config },
                ..old(self)@
            }),
    {
        self.config.collect_drives = on;
    }

    /// The processors of this round.
    pub fn collect_cpu(&self, raw: RawCpu) -> (r: CpuSnapshot)
        requires
            raw.per_core_usage@.len() <= u32::MAX,
        ensures
            shows_cpu(r, self@, raw),
    {
        let perf_levels = split_perf_levels(&raw.per_core_usage, &self.perf_levels);
        let logical_cores: u32 = raw.per_core_usage.len() as u32;
        let frequency_mhz: Option<u64> = find_frequency(&raw.per_core_frequency_mhz);
        let brand = find_brand(&raw.brands);
        let mut per_core_usage: Vec<u64> = Vec::new();
        assert(per_core_usage@ =~= Seq::empty());
        if self.config.per_core_cpu {
            per_core_usage = raw.per_core_usage;
        }
        let mut per_core_frequency_mhz: Vec<u64> = Vec::new();
        assert(per_core_frequency_mhz@ =~= Seq::empty());
        if frequency_mhz.is_some() {
            per_core_frequency_mhz = raw.per_core_frequency_mhz;
        }
        CpuSnapshot {
            usage_percent: raw.usage_percent,
            per_core_usage,
            logical_cores,
            physical_cores: raw.physical_cores,
            frequency_mhz,
            per_core_frequency_mhz,
            brand,
            perf_levels,
        }
    }

    /// The memory of this round.
    pub fn collect_memory(&mut self, at: Instant, raw: RawMemory) -> (r: MemorySnapshot)
        ensures
            r == memory_snapshot(old(self)@.swap, at, raw),
            final(self)@ == after_memory(old(self)@, at, raw),
    {
        let (compressed_bytes, pressure_level) = memory_pressure(
            raw.compressed_bytes,
            raw.pressure_level,
        );
        let mut swap_ins_per_sec: Option<u64> = None;
        let mut swap_outs_per_sec: Option<u64> = None;
        let mut swap_thrashing: Option<bool> = None;
        if let Some(last) = self.last_swap {
            let elapsed = at.duration_since(last.at);
            swap_ins_per_sec = known_rate(last.counters.ins, raw.swap.ins, elapsed);
            swap_outs_per_sec = known_rate(last.counters.outs, raw.swap.outs, elapsed);
            swap_thrashing = match (last.counters.thrashes, raw.swap.thrashes) {
                (Some(before), Some(now)) => Some(now > before),
                _ => None,
            };
        }
        self.last_swap = Some(SwapReading { at, counters: raw.swap });
        MemorySnapshot {
            total_bytes: raw.total_bytes,
            used_bytes: raw.used_bytes,
            available_bytes: raw.available_bytes,
            swap_total_bytes: raw.swap_total_bytes,
            swap_used_bytes: raw.swap_used_bytes,
            used_percent: ratio_percent(raw.used_bytes, raw.total_bytes),
            swap_used_percent: ratio_percent(raw.swap_used_bytes, raw.swap_total_bytes),
            compressed_bytes,
            pressure_level,
            swap_ins_per_sec,
            swap_outs_per_sec,
            swap_thrashing,
            kernel_available_percent: narrowed(raw.kernel_available_percent),
        }
    }
}

/// A value that fits 32 bits.
pub open spec fn in_32_bits(v: Option<u64>) -> Option<u32> {
    match v {
        Some(v) => if v <= u32::MAX {
            Some(v as u32)
        } else {
            None
        },
        None => None,
    }
}

fn narrowed(v: Option<u64>) -> (r: Option<u32>)
    ensures
        r == in_32_bits(v),
{
    match v {
        Some(v) => if v <= u32::MAX as u64 {
            Some(v as u32)
        } else {
            None
        },
        None => None,
    }
}

/// The rate between two counts, where both are known.
pub open spec fn rate_between(prev: Option<u64>, curr: Option<u64>, elapsed: Duration) -> Option<
    u64,
> {
    match (prev, curr) {
        (Some(p), Some(c)) => Some(rate_of(p, c, elapsed)),
        _ => None,
    }
}

fn known_rate(prev: Option<u64>, curr: Option<u64>, elapsed: Duration) -> (r: Option<u64>)
    ensures
        r == rate_between(prev, curr, elapsed),
{
    match (prev, curr) {
        (Some(p), Some(c)) => Some(rate_per_sec(p, c, elapsed)),
        _ => None,
    }
}

/// Whether `c` shows the processors.
pub open spec fn shows_cpu(c: CpuSnapshot, s: CollectorState, raw: RawCpu) -> bool {
    let cores = raw.per_core_usage@;
    &&& c.usage_percent == raw.usage_percent
    &&& c.per_core_usage@ == if s.config.per_core_cpu {
        cores
    } else {
        Seq::empty()
    }
    &&& c.logical_cores == cores.len()
    &&& c.physical_cores == raw.physical_cores
    &&& c.frequency_mhz == first_known(raw.per_core_frequency_mhz@)
    &&& c.per_core_frequency_mhz@ == if first_known(raw.per_core_frequency_mhz@) is Some {
        raw.per_core_frequency_mhz@
    } else {
        Seq::empty()
    }
    &&& super::processes::text_view(c.brand) == first_brand(raw.brands@)
    &&& list_of(c.perf_levels) == if s.perf_levels.len() >= 2 && cores_in(s.perf_levels)
        == cores.len() && cores.len() > 0 {
        Some(level_usages(cores, s.perf_levels))
    } else {
        None
    }
}

/// The memory of a round. What the compressor moved is compared with the round
/// before; on the first there is nothing to compare with.
pub open spec fn memory_snapshot(
    last: Option<SwapReading>,
    at: Instant,
    raw: RawMemory,
) -> MemorySnapshot {
    let before = last->0.counters;
    let elapsed = Duration { nanos: nanos_since(at, last->0.at) as u128 };
    MemorySnapshot {
        total_bytes: raw.total_bytes,
        used_bytes: raw.used_bytes,
        available_bytes: raw.available_bytes,
        swap_total_bytes: raw.swap_total_bytes,
        swap_used_bytes: raw.swap_used_bytes,
        used_percent: percent_ratio(raw.used_bytes, raw.total_bytes),
        swap_used_percent: percent_ratio(raw.swap_used_bytes, raw.swap_total_bytes),
        compressed_bytes: raw.compressed_bytes,
        pressure_level: in_32_bits(raw.pressure_level),
        swap_ins_per_sec: if last is Some {
            rate_between(before.ins, raw.swap.ins, elapsed)
        } else {
            None
        },
        swap_outs_per_sec: if last is Some {
            rate_between(before.outs, raw.swap.outs, elapsed)
        } else {
            None
        },
        swap_thrashing: if last is Some {
            match (before.thrashes, raw.swap.thrashes) {
                (Some(before), Some(now)) => Some(now > before),
                _ => None,
            }
        } else {
            None
        },
        kernel_available_percent: in_32_bits(raw.kernel_available_percent),
    }
}

/// What is remembered of the memory.
pub open spec fn after_memory(s: CollectorState, at: Instant, raw: RawMemory) -> CollectorState {
    CollectorState { swap: Some(SwapReading { at, counters: raw.swap }), ..s }
}

/// What to do about the processes.
pub open spec fn process_plan(
    s: CollectorState,
    now: Instant,
    cpu_usage_percent: u64,
    logical_cores: u32,
) -> Plan {
    let boost = boosted(s.config.process_boost_cpu_cores, cpu_usage_percent, logical_cores);
    plan_for(
        s.config.collect_processes,
        if boost {
            Duration { nanos: 0 }
        } else {
            s.config.process_refresh_interval
        },
        s.timers.process,
        now,
    )
}

/// What to do about the network interfaces.
pub open spec fn network_plan(s: CollectorState, now: Instant) -> Plan {
    plan_for(s.config.collect_networks, s.config.network_refresh_interval, s.timers.network, now)
}

/// What is remembered once the network interfaces are planned for.
pub open spec fn after_network_plan(s: CollectorState, now: Instant) -> CollectorState {
    CollectorState {
        timers: Timers { network: stamp(network_plan(s, now), s.timers.network, now), ..s.timers },
        ..s
    }
}

/// What to do about the temperatures.
pub open spec fn temperature_plan(s: CollectorState, now: Instant) -> Plan {
    plan_for(s.config.collect_temperatures, s.config.temperature_refresh_interval, s.timers.temperature, now)
}

/// What is remembered once the temperatures are planned for.
pub open spec fn after_temperature_plan(s: CollectorState, now: Instant) -> CollectorState {
    CollectorState {
        timers: Timers { temperature: stamp(temperature_plan(s, now), s.timers.temperature, now), ..s.timers },
        ..s
    }
}

/// What to do about the graphics processors.
pub open spec fn gpu_plan(s: CollectorState, now: Instant) -> Plan {
    plan_for(s.config.collect_gpu, s.config.gpu_refresh_interval, s.timers.gpu, now)
}

/// What is remembered once the graphics processors are planned for.
pub open spec fn after_gpu_plan(s: CollectorState, now: Instant) -> CollectorState {
    CollectorState {
        timers: Timers { gpu: stamp(gpu_plan(s, now), s.timers.gpu, now), ..s.timers },
        ..s
    }
}

/// What to do about the drives.
pub open spec fn drive_plan(s: CollectorState, now: Instant) -> Plan {
    plan_for(s.config.collect_drives, s.config.drive_refresh_interval, s.timers.drive, now)
}

/// What is remembered once the drives are planned for.
pub open spec fn after_drive_plan(s: CollectorState, now: Instant) -> CollectorState {
    CollectorState {
        timers: Timers { drive: stamp(drive_plan(s, now), s.timers.drive, now), ..s.timers },
        ..s
    }
}

/// What to do about the battery, given whether the system can read one.
pub open spec fn battery_plan(s: CollectorState, now: Instant, readable: bool) -> Plan {
    plan_for(
        s.config.collect_battery && readable,
        s.config.battery_refresh_interval,
        s.timers.battery,
        now,
    )
}

/// What is remembered once the battery is planned for.
pub open spec fn after_battery_plan(
    s: CollectorState,
    now: Instant,
    readable: bool,
) -> CollectorState {
    CollectorState {
        timers: Timers {
            battery: stamp(battery_plan(s, now, readable), s.timers.battery, now),
            ..s.timers
        },
        ..s
    }
}

/// What is remembered once the processes are planned for.
pub open spec fn after_process_plan(
    s: CollectorState,
    now: Instant,
    cpu_usage_percent: u64,
    logical_cores: u32,
) -> CollectorState {
    CollectorState {
        timers: Timers {
            process: stamp(
                process_plan(s, now, cpu_usage_percent, logical_cores),
                s.timers.process,
                now,
            ),
            ..s.timers
        },
        ..s
    }
}

/// Whether the processor frequency is due.
pub open spec fn frequency_due(s: CollectorState, now: Instant) -> bool {
    is_due(s.config.cpu_frequency_refresh_interval, s.timers.cpu_frequency, now)
}

/// What is remembered once the processor frequency is planned for.
pub open spec fn after_frequency_plan(s: CollectorState, now: Instant) -> CollectorState {
    CollectorState {
        timers: Timers {
            cpu_frequency: if frequency_due(s, now) {
                Some(now)
            } else {
                s.timers.cpu_frequency
            },
            ..s.timers
        },
        ..s
    }
}

/// What to do about the volumes.
pub open spec fn disk_plan(s: CollectorState, now: Instant) -> Plan {
    plan_for(
        s.config.collect_disks,
        s.config.disk_io_refresh_interval,
        s.timers.disk_io,
        now,
    )
}

/// Whether the capacity of the volumes is read along with their counters.
pub open spec fn capacity_due(s: CollectorState, now: Instant) -> bool {
    disk_plan(s, now) is Refresh && is_due(
        s.config.disk_storage_refresh_interval,
        s.timers.disk_storage,
        now,
    )
}

/// What is remembered once the volumes are planned for.
pub open spec fn after_disk_plan(s: CollectorState, now: Instant) -> CollectorState {
    CollectorState {
        timers: Timers {
            disk_io: stamp(disk_plan(s, now), s.timers.disk_io, now),
            disk_storage: if capacity_due(s, now) {
                Some(now)
            } else {
                s.timers.disk_storage
            },
            ..s.timers
        },
        ..s
    }
}

/// The volumes that a plan shows.
pub open spec fn disks_shown(s: CollectorState, plan: Plan, raws: Seq<RawDisk>) -> Option<
    Seq<DiskSnapshot>,
> {
    match plan {
        Plan::Off => None,
        Plan::Reuse => s.disks,
        Plan::Refresh(elapsed) => {
            let all = disk_snapshots(s.disk_counters, raws, elapsed);
            Some(
                if s.config.dedupe_disks {
                    deduped(all)
                } else {
                    all
                },
            )
        },
    }
}

/// What is remembered of the volumes.
pub open spec fn after_disks(s: CollectorState, plan: Plan, raws: Seq<RawDisk>) -> CollectorState {
    if plan is Refresh {
        CollectorState {
            disks: disks_shown(s, plan, raws),
            disk_counters: counters_of(raws),
            ..s
        }
    } else {
        s
    }
}

/// The interfaces that a plan shows.
pub open spec fn networks_shown(s: CollectorState, plan: Plan, raws: Seq<RawNetwork>) -> Option<
    Seq<NetworkSnapshot>,
> {
    match plan {
        Plan::Off => None,
        Plan::Reuse => s.networks,
        Plan::Refresh(elapsed) => Some(network_snapshots(s.net_counters, raws, elapsed)),
    }
}

/// What is remembered of the interfaces.
pub open spec fn after_networks(
    s: CollectorState,
    plan: Plan,
    raws: Seq<RawNetwork>,
) -> CollectorState {
    if plan is Refresh {
        CollectorState {
            networks: networks_shown(s, plan, raws),
            net_counters: net_counters_of(raws),
            ..s
        }
    } else {
        s
    }
}

/// The temperatures that a plan shows.
pub open spec fn temperatures_shown(s: CollectorState, plan: Plan, raws: Seq<RawSensor>) -> Option<
    Seq<TemperatureSnapshot>,
> {
    match plan {
        Plan::Off => None,
        Plan::Reuse => s.temperatures,
        Plan::Refresh(_) => Some(hottest_first(raws)),
    }
}

/// What is remembered of the temperatures.
pub open spec fn after_temperatures(
    s: CollectorState,
    plan: Plan,
    raws: Seq<RawSensor>,
) -> CollectorState {
    if plan is Refresh {
        CollectorState { temperatures: Some(hottest_first(raws)), ..s }
    } else {
        s
    }
}

/// The battery that a plan shows.
pub open spec fn battery_shown(s: CollectorState, plan: Plan, raw: RawBattery) -> Option<
    BatterySnapshot,
> {
    match plan {
        Plan::Off => None,
        Plan::Reuse => s.battery,
        Plan::Refresh(_) => match raw {
            RawBattery::Unreadable => None,
            RawBattery::Read(b) => b,
        },
    }
}

/// What is remembered of the battery: one that could not be listed changes
/// nothing.
pub open spec fn after_battery(s: CollectorState, plan: Plan, raw: RawBattery) -> CollectorState {
    if plan is Refresh && raw is Read {
        CollectorState { battery: raw->Read_0, ..s }
    } else {
        s
    }
}

/// The graphics processors that a plan shows.
pub open spec fn gpus_shown(s: CollectorState, plan: Plan, raws: Option<Seq<GpuSample>>) -> Option<
    Seq<GpuSnapshot>,
> {
    match plan {
        Plan::Off => None,
        Plan::Reuse => s.gpus,
        Plan::Refresh(_) => match raws {
            Some(samples) => Some(samples.map_values(|g: GpuSample| gpu_snapshot(g))),
            None => None,
        },
    }
}

/// What is remembered of the graphics processors.
pub open spec fn after_gpus(
    s: CollectorState,
    plan: Plan,
    raws: Option<Seq<GpuSample>>,
) -> CollectorState {
    if plan is Refresh {
        CollectorState { gpus: gpus_shown(s, plan, raws), ..s }
    } else {
        s
    }
}

/// The drives that a plan shows.
pub open spec fn drives_shown(
    s: CollectorState,
    plan: Plan,
    raws: Option<Seq<DriveCounters>>,
) -> Option<Seq<DriveSnapshot>> {
    match plan {
        Plan::Off => None,
        Plan::Reuse => s.drives,
        Plan::Refresh(elapsed) => match raws {
            Some(counters) => Some(
                counters.map_values(
                    |d: DriveCounters| drive_snapshot(s.drive_counters, d, elapsed),
                ),
            ),
            None => None,
        },
    }
}

/// What is remembered of the drives.
pub open spec fn after_drives(
    s: CollectorState,
    plan: Plan,
    raws: Option<Seq<DriveCounters>>,
) -> CollectorState {
    if plan is Refresh {
        CollectorState {
            drives: drives_shown(s, plan, raws),
            drive_counters: match raws {
                Some(counters) => counters,
                None => Seq::empty(),
            },
            ..s
        }
    } else {
        s
    }
}

/// Whether the list is that of the processes that a plan shows.
pub open spec fn processes_shown(
    list: Option<Seq<ProcessSnapshot>>,
    s: CollectorState,
    plan: Plan,
    raws: Seq<RawProcess>,
) -> bool {
    match plan {
        Plan::Off => list is None,
        Plan::Reuse => list == s.processes,
        Plan::Refresh(elapsed) => list is Some && shows_selection(
            list->0,
            raws,
            s.cpu_percents,
            s.config.max_processes as nat,
            s.config.collect_process_disk_io,
            s.process_counters,
            elapsed,
        ),
    }
}

/// What is remembered of the processes.
pub open spec fn after_processes(
    s: CollectorState,
    plan: Plan,
    raws: Seq<RawProcess>,
    list: Option<Seq<ProcessSnapshot>>,
) -> CollectorState {
    if plan is Refresh {
        CollectorState {
            processes: list,
            process_counters: if s.config.collect_process_disk_io {
                process_counters_of(raws)
            } else {
                Map::empty()
            },
            ..s
        }
    } else {
        s
    }
}

/// Whether the list is that of the applications that a plan shows.
pub open spec fn groups_shown(
    list: Option<Seq<ProcessGroupSnapshot>>,
    s: CollectorState,
    plan: Plan,
    raws: Seq<RawProcess>,
) -> bool {
    if !s.config.collect_process_groups {
        list is None
    } else {
        match plan {
            Plan::Off => list is None,
            Plan::Reuse => list == s.groups,
            Plan::Refresh(elapsed) => list is Some && shows_groups(
                list->0,
                raws,
                s.cpu_percents,
                s.config.max_processes as nat,
                s.config.collect_process_disk_io,
                elapsed,
            ),
        }
    }
}

/// What is remembered of the applications.
pub open spec fn after_groups(
    s: CollectorState,
    plan: Plan,
    list: Option<Seq<ProcessGroupSnapshot>>,
) -> CollectorState {
    if plan is Refresh && s.config.collect_process_groups {
        CollectorState { groups: list, ..s }
    } else {
        s
    }
}

/// What was read is shown again, as it was, until it is read anew, whatever the
/// system has to tell meanwhile.
pub proof fn law_last_list_is_shown_again(
    s: CollectorState,
    elapsed: Option<Duration>,
    disks: (Seq<RawDisk>, Seq<RawDisk>),
    networks: (Seq<RawNetwork>, Seq<RawNetwork>),
    sensors: (Seq<RawSensor>, Seq<RawSensor>),
    gpus: (Option<Seq<GpuSample>>, Option<Seq<GpuSample>>),
    drives: (Option<Seq<DriveCounters>>, Option<Seq<DriveCounters>>),
)
    ensures
        disks_shown(after_disks(s, Plan::Refresh(elapsed), disks.0), Plan::Reuse, disks.1)
            == disks_shown(s, Plan::Refresh(elapsed), disks.0),
        networks_shown(
            after_networks(s, Plan::Refresh(elapsed), networks.0),
            Plan::Reuse,
            networks.1,
        ) == networks_shown(s, Plan::Refresh(elapsed), networks.0),
        temperatures_shown(
            after_temperatures(s, Plan::Refresh(elapsed), sensors.0),
            Plan::Reuse,
            sensors.1,
        ) == temperatures_shown(s, Plan::Refresh(elapsed), sensors.0),
        gpus_shown(after_gpus(s, Plan::Refresh(elapsed), gpus.0), Plan::Reuse, gpus.1)
            == gpus_shown(s, Plan::Refresh(elapsed), gpus.0),
        drives_shown(after_drives(s, Plan::Refresh(elapsed), drives.0), Plan::Reuse, drives.1)
            == drives_shown(s, Plan::Refresh(elapsed), drives.0),
{
}

/// The processes and the applications that were read are shown again, as they
/// were, until they are read anew.
pub proof fn law_last_processes_are_shown_again(
    s: CollectorState,
    elapsed: Option<Duration>,
    raws: (Seq<RawProcess>, Seq<RawProcess>),
    processes: (Option<Seq<ProcessSnapshot>>, Option<Seq<ProcessSnapshot>>),
    groups: (Option<Seq<ProcessGroupSnapshot>>, Option<Seq<ProcessGroupSnapshot>>),
)
    requires
        processes_shown(processes.0, s, Plan::Refresh(elapsed), raws.0),
        groups_shown(groups.0, s, Plan::Refresh(elapsed), raws.0),
        ({
            let kept = after_groups(
                after_processes(s, Plan::Refresh(elapsed), raws.0, processes.0),
                Plan::Refresh(elapsed),
                groups.0,
            );
            &&& processes_shown(processes.1, kept, Plan::Reuse, raws.1)
            &&& groups_shown(groups.1, kept, Plan::Reuse, raws.1)
        }),
    ensures
        processes.1 == processes.0,
        groups.1 == groups.0,
{
}

/// What one round reads anew.
#[derive(Debug, Clone, Copy, PartialEq, Eq, Structural)]
pub struct RoundPlan {
    pub processes: Plan,
    pub disks: Plan,
    pub networks: Plan,
    pub temperatures: Plan,
    pub battery: Plan,
    pub gpus: Plan,
    pub drives: Plan,
}

/// The readings of one round. A list that was not read anew is empty.
pub struct Readings {
    pub timestamp: i128,
    /// When the memory was read
    pub at: Instant,
    pub host: HostInfo,
    pub cpu: RawCpu,
    pub memory: RawMemory,
    pub disks: Vec<RawDisk>,
    pub networks: Vec<RawNetwork>,
    pub processes: Vec<RawProcess>,
    /// The size of the process table
    pub process_count: u32,
    pub sensors: Vec<RawSensor>,
    pub battery: RawBattery,
    /// Absent where they could not be read
    pub gpus: Option<Vec<GpuSample>>,
    /// Absent where they could not be read
    pub drives: Option<Vec<DriveCounters>>,
    pub load: LoadSnapshot,
    pub capabilities: Capabilities,
}

/// The processes' use, derived anew in a round that reads them.
pub open spec fn after_percents(
    s: CollectorState,
    plan: Plan,
    raws: Seq<RawProcess>,
) -> CollectorState {
    match plan {
        Plan::Refresh(elapsed) => CollectorState {
            cpu_percents: percents_of(s.cpu_times, raws, elapsed),
            cpu_times: baselines_of(raws),
            ..s
        },
        _ => s,
    }
}

/// What is remembered after a round that gave the snapshot.
pub open spec fn after_round(
    s: CollectorState,
    plan: RoundPlan,
    readings: Readings,
    r: SystemSnapshot,
) -> CollectorState {
    let s1 = after_memory(s, readings.at, readings.memory);
    let s2 = after_disks(s1, plan.disks, readings.disks@);
    let s3 = after_networks(s2, plan.networks, readings.networks@);
    let s4 = after_processes(s3, plan.processes, readings.processes@, list_of(r.processes));
    let s5 = after_groups(s4, plan.processes, list_of(r.process_groups));
    let s6 = after_temperatures(s5, plan.temperatures, readings.sensors@);
    let s7 = after_battery(s6, plan.battery, readings.battery);
    let s8 = after_gpus(s7, plan.gpus, list_of(readings.gpus));
    after_drives(s8, plan.drives, list_of(readings.drives))
}

/// Whether a snapshot shows a round.
pub open spec fn shows_round(
    before: CollectorState,
    plan: RoundPlan,
    readings: Readings,
    r: SystemSnapshot,
) -> bool {
    let s = after_percents(before, plan.processes, readings.processes@);
    &&& r.timestamp == readings.timestamp
    &&& r.host == readings.host
    &&& shows_cpu(r.cpu, s, readings.cpu)
    &&& r.memory == memory_snapshot(s.swap, readings.at, readings.memory)
    &&& r.load == readings.load
    &&& list_of(r.gpus) == gpus_shown(s, plan.gpus, list_of(readings.gpus))
    &&& list_of(r.drives) == drives_shown(s, plan.drives, list_of(readings.drives))
    &&& r.capabilities == readings.capabilities
    &&& list_of(r.disks) == disks_shown(s, plan.disks, readings.disks@)
    &&& list_of(r.networks) == networks_shown(s, plan.networks, readings.networks@)
    &&& processes_shown(
        list_of(r.processes),
        s,
        plan.processes,
        readings.processes@,
    )
    &&& groups_shown(
        list_of(r.process_groups),
        s,
        plan.processes,
        readings.processes@,
    )
    &&& r.total_processes == if s.config.collect_processes {
        Some(readings.process_count)
    } else {
        None
    }
    &&& r.battery == battery_shown(s, plan.battery, readings.battery)
    &&& list_of(r.temperatures) == temperatures_shown(
        s,
        plan.temperatures,
        readings.sensors@,
    )
    &&& r.io_totals == totals(
        list_of(r.disks),
        list_of(r.networks),
        list_of(r.drives),
    )
    &&& r.extras@.len() == 0
}

/// What is remembered after a round.
pub open spec fn next_round(
    before: CollectorState,
    plan: RoundPlan,
    readings: Readings,
    r: SystemSnapshot,
) -> CollectorState {
    after_round(after_percents(before, plan.processes, readings.processes@), plan, readings, r)
}

impl LocalCollector {
    /// Makes the snapshot of a round from its plan and its readings.
    #[verifier::rlimit(60)]
    pub fn collect(&mut self, plan: RoundPlan, readings: Readings) -> (r: SystemSnapshot)
        requires
            readings.cpu.per_core_usage@.len() <= u32::MAX,
            readings.processes@.len() <= u32::MAX,
        ensures
            shows_round(old(self)@, plan, readings, r),
            final(self)@ == next_round(old(self)@, plan, readings, r),
    {
        if let Plan::Refresh(elapsed) = plan.processes {
            self.update_cpu_percents(elapsed, &readings.processes);
        }
        let ghost s0 = after_percents(old(self)@, plan.processes, readings.processes@);
        assert(self@ == s0);
        let cpu = self.collect_cpu(readings.cpu);
        let memory = self.collect_memory(readings.at, readings.memory);
        let ghost s1 = after_memory(s0, readings.at, readings.memory);
        assert(self@ == s1);
        let disks = self.collect_disks(plan.disks, &readings.disks);
        let ghost s2 = after_disks(s1, plan.disks, readings.disks@);
        assert(self@ == s2);
        assert(list_of(disks) == disks_shown(s0, plan.disks, readings.disks@));
        let networks = self.collect_networks(plan.networks, &readings.networks);
        let ghost s3 = after_networks(s2, plan.networks, readings.networks@);
        assert(self@ == s3);
        assert(list_of(networks) == networks_shown(s0, plan.networks, readings.networks@));
        let processes = self.collect_processes(plan.processes, &readings.processes);
        let ghost s4 = after_processes(
            s3,
            plan.processes,
            readings.processes@,
            list_of(processes),
        );
        assert(self@ == s4);
        assert(processes_shown(
            list_of(processes),
            s0,
            plan.processes,
            readings.processes@,
        ));
        let process_groups = self.collect_process_groups(plan.processes, &readings.processes);
        let ghost s5 = after_groups(s4, plan.processes, list_of(process_groups));
        assert(self@ == s5);
        assert(groups_shown(
            list_of(process_groups),
            s0,
            plan.processes,
            readings.processes@,
        ));
        let total_processes: Option<u32> = self.collect_total_processes(readings.process_count);
        let temperatures = self.collect_temperatures(plan.temperatures, &readings.sensors);
        let ghost s6 = after_temperatures(s5, plan.temperatures, readings.sensors@);
        assert(self@ == s6);
        assert(list_of(temperatures) == temperatures_shown(
            s0,
            plan.temperatures,
            readings.sensors@,
        ));
        let battery = self.collect_battery(plan.battery, readings.battery);
        let ghost s7 = after_battery(s6, plan.battery, readings.battery);
        assert(self@ == s7);
        assert(battery == battery_shown(s0, plan.battery, readings.battery));
        let gpus = self.collect_gpus(plan.gpus, &readings.gpus);
        let ghost s8 = after_gpus(s7, plan.gpus, list_of(readings.gpus));
        assert(self@ == s8);
        assert(list_of(gpus) == gpus_shown(s0, plan.gpus, list_of(readings.gpus)));
        let drives = self.collect_drives(plan.drives, readings.drives);
        assert(list_of(drives) == drives_shown(s0, plan.drives, list_of(readings.drives)));
        let io_totals = io_totals_from(disks.as_ref(), networks.as_ref(), drives.as_ref());
        SystemSnapshot {
            timestamp: readings.timestamp,
            host: readings.host,
            cpu,
            memory,
            disks,
            networks,
            processes,
            process_groups,
            total_processes,
            battery,
            gpus,
            drives,
            load: readings.load,
            temperatures,
            io_totals,
            capabilities: readings.capabilities,
            extras: Vec::new(),
        }
    }
}

} // verus!
