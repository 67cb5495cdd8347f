//! The data model: what one round of collection yields.
//!
//! Numbers with a fraction are counted in millionths of their unit (see
//! [`crate::number::UNIT`]).
use vstd::prelude::*;
use vstd::string::*;
use crate::text::same_text;

verus! {

/// One complete sample of the system.
#[derive(Debug, Clone)]
pub struct SystemSnapshot {
    /// Sampling time: nanoseconds since the start of 1970, UTC
    pub timestamp: i128,
    pub host: HostInfo,
    pub cpu: CpuSnapshot,
    pub memory: MemorySnapshot,
    /// None when disk collection is off
    pub disks: Option<Vec<DiskSnapshot>>,
    /// None when network collection is off
    pub networks: Option<Vec<NetworkSnapshot>>,
    /// None when process collection is off
    pub processes: Option<Vec<ProcessSnapshot>>,
    /// Whole process trees; None when process or group collection is off
    pub process_groups: Option<Vec<ProcessGroupSnapshot>>,
    /// How many processes there are; `processes` keeps only some of them
    pub total_processes: Option<u32>,
    pub battery: Option<BatterySnapshot>,
    pub gpus: Option<Vec<GpuSnapshot>>,
    /// Whole drives; `disks` lists volumes
    pub drives: Option<Vec<DriveSnapshot>>,
    pub load: LoadSnapshot,
    /// Hottest first; None when temperature collection is off
    pub temperatures: Option<Vec<TemperatureSnapshot>>,
    pub io_totals: IoTotalsSnapshot,
    pub capabilities: Capabilities,
    /// Reserved for extensions: names, each with a value as JSON text
    pub extras: Vec<(String, String)>,
}

/// Which measurements a build can produce at all.
#[derive(Debug, Clone, Copy, PartialEq, Eq, Structural)]
pub struct Capabilities {
    pub memory_footprint: bool,
    pub memory_pressure: bool,
    pub cpu_perf_levels: bool,
    pub gpu: bool,
    pub drive_io: bool,
    pub swap_rates: bool,
}

impl Capabilities {
    /// What a build for the named operating system can do.
    pub fn current(target_os: &str) -> (r: Capabilities)
        ensures
            r.memory_footprint == (target_os@ == "macos"@ || target_os@ == "windows"@ || target_os@
                == "linux"@),
            r.memory_pressure == (target_os@ == "macos"@),
            r.cpu_perf_levels == (target_os@ == "macos"@),
            r.gpu == (target_os@ == "macos"@),
            r.drive_io == (target_os@ == "macos"@),
            r.swap_rates == (target_os@ == "macos"@),
    {
        let macos: bool = same_text(target_os, "macos");
        Capabilities {
            memory_footprint: macos || same_text(target_os, "windows") || same_text(
                target_os,
                "linux",
            ),
            memory_pressure: macos,
            cpu_perf_levels: macos,
            gpu: macos,
            drive_io: macos,
            swap_rates: macos,
        }
    }
}

/// Summed disk and network throughput of the whole machine.
#[derive(Debug, Clone, Copy, PartialEq, Eq, Structural)]
pub struct IoTotalsSnapshot {
    pub disk_read_bytes_per_sec: Option<u64>,
    pub disk_write_bytes_per_sec: Option<u64>,
    pub network_received_bytes_per_sec: Option<u64>,
    pub network_transmitted_bytes_per_sec: Option<u64>,
    /// Operations, summed over drives
    pub disk_read_ops_per_sec: Option<u64>,
    pub disk_write_ops_per_sec: Option<u64>,
}

impl Default for IoTotalsSnapshot {
    fn default() -> (r: IoTotalsSnapshot)
        ensures
            r == (IoTotalsSnapshot {
                disk_read_bytes_per_sec: None,
                disk_write_bytes_per_sec: None,
                network_received_bytes_per_sec: None,
                network_transmitted_bytes_per_sec: None,
                disk_read_ops_per_sec: None,
                disk_write_ops_per_sec: None,
            }),
    {
        IoTotalsSnapshot {
            disk_read_bytes_per_sec: None,
            disk_write_bytes_per_sec: None,
            network_received_bytes_per_sec: None,
            network_transmitted_bytes_per_sec: None,
            disk_read_ops_per_sec: None,
            disk_write_ops_per_sec: None,
        }
    }
}

/// Which machine this is.
#[derive(Debug, Clone)]
pub struct HostInfo {
    pub hostname: String,
    pub os_name: String,
    pub os_version: String,
    pub kernel_version: Option<String>,
    pub arch: String,
    /// Seconds since boot
    pub uptime_secs: u64,
    pub labels: Vec<(String, String)>,
}

/// The main battery.
#[derive(Debug, Clone)]
pub struct BatterySnapshot {
    /// The direction of travel: charging, discharging, full, empty or unknown
    pub state: String,
    /// Charge, 0 to 100 percent
    pub charge_percent: u64,
    /// Full capacity relative to the design capacity
    pub health_percent: Option<u64>,
    pub cycle_count: Option<u32>,
    pub temperature_celsius: Option<i64>,
    pub power_watts: Option<u64>,
    pub time_to_full_secs: Option<u64>,
    pub time_to_empty_secs: Option<u64>,
}

/// Usage of one performance level of a processor.
#[derive(Debug, Clone)]
pub struct PerfLevelSnapshot {
    pub name: String,
    pub logical_cores: u32,
    /// Mean usage of the level's cores
    pub usage_percent: u64,
}

/// Processor metrics.
#[derive(Debug, Clone)]
pub struct CpuSnapshot {
    pub usage_percent: u64,
    pub per_core_usage: Vec<u64>,
    pub logical_cores: u32,
    pub physical_cores: Option<u32>,
    pub frequency_mhz: Option<u64>,
    pub per_core_frequency_mhz: Vec<u64>,
    pub brand: Option<String>,
    /// Fastest level first; None with fewer than two levels
    pub perf_levels: Option<Vec<PerfLevelSnapshot>>,
}

/// Memory metrics.
#[derive(Debug, Clone, Copy, PartialEq, Eq, Structural)]
pub struct MemorySnapshot {
    pub total_bytes: u64,
    pub used_bytes: u64,
    pub available_bytes: u64,
    pub swap_total_bytes: u64,
    pub swap_used_bytes: u64,
    pub used_percent: u64,
    pub swap_used_percent: u64,
    /// Bytes held by the memory compressor
    pub compressed_bytes: Option<u64>,
    /// The kernel's own level: 1 is normal, 2 a warning, 4 critical
    pub pressure_level: Option<u32>,
    pub swap_ins_per_sec: Option<u64>,
    pub swap_outs_per_sec: Option<u64>,
    /// Whether the kernel's thrash detector advanced
    pub swap_thrashing: Option<bool>,
    pub kernel_available_percent: Option<u32>,
}

/// One GPU's utilisation and memory.
#[derive(Debug, Clone)]
pub struct GpuSnapshot {
    pub name: String,
    pub cores: Option<u32>,
    pub utilization_percent: i64,
    pub renderer_utilization_percent: Option<i64>,
    pub tiler_utilization_percent: Option<i64>,
    pub memory_in_use_bytes: Option<u64>,
    pub memory_allocated_bytes: Option<u64>,
}

/// One whole drive's statistics.
#[derive(Debug, Clone)]
pub struct DriveSnapshot {
    pub name: String,
    pub model: Option<String>,
    pub size_bytes: Option<u64>,
    pub is_removable: bool,
    pub read_ops_per_sec: Option<u64>,
    pub write_ops_per_sec: Option<u64>,
    pub read_bytes_per_sec: Option<u64>,
    pub write_bytes_per_sec: Option<u64>,
    /// Mean service time of a read, in millionths of a millisecond
    pub read_latency_ms: Option<u64>,
    pub write_latency_ms: Option<u64>,
    /// Mean number of operations in flight
    pub queue_depth: Option<u64>,
    /// Errors since boot
    pub read_errors: u64,
    pub write_errors: u64,
}

/// One volume.
#[derive(Debug, Clone)]
pub struct DiskSnapshot {
    pub name: String,
    pub mount_point: String,
    pub file_system: String,
    /// `SSD`, `HDD` or `Unknown`
    pub kind: String,
    pub is_removable: bool,
    pub total_bytes: u64,
    pub available_bytes: u64,
    pub used_percent: u64,
    /// None on the first sample
    pub read_bytes_per_sec: Option<u64>,
    pub write_bytes_per_sec: Option<u64>,
}

/// One network interface.
#[derive(Debug, Clone)]
pub struct NetworkSnapshot {
    pub interface: String,
    pub received_bytes_per_sec: u64,
    pub transmitted_bytes_per_sec: u64,
    pub received_packets_per_sec: Option<u64>,
    pub transmitted_packets_per_sec: Option<u64>,
    pub received_errors_per_sec: Option<u64>,
    pub transmitted_errors_per_sec: Option<u64>,
}

/// One process.
#[derive(Debug, Clone)]
pub struct ProcessSnapshot {
    pub pid: u32,
    pub name: String,
    /// The application's name where the executable does not say it; shown, and
    /// never matched on
    pub display_name: Option<String>,
    pub cmd: String,
    /// One full core is 100 percent
    pub cpu_usage_percent: u64,
    /// Processor time since the process started, in milliseconds of one core
    pub cpu_time_ms: u64,
    pub memory_bytes: u64,
    /// What the system bills the process for, where it says so
    pub phys_footprint_bytes: Option<u64>,
    pub virtual_memory_bytes: u64,
    pub run_time_secs: u64,
    pub parent_pid: Option<u32>,
    pub user_id: Option<String>,
    pub status: String,
    pub read_bytes_per_sec: Option<u64>,
    pub write_bytes_per_sec: Option<u64>,
}

/// One application: a process tree added up.
#[derive(Debug, Clone)]
pub struct ProcessGroupSnapshot {
    /// Pid of the tree's root
    pub root_pid: u32,
    /// Name of the root process
    pub name: String,
    pub display_name: Option<String>,
    pub process_count: u32,
    pub cpu_usage_percent: u64,
    pub memory_bytes: u64,
    pub phys_footprint_bytes: Option<u64>,
    pub read_bytes_per_sec: Option<u64>,
    pub write_bytes_per_sec: Option<u64>,
}

/// Load averages.
#[derive(Debug, Clone, Copy, PartialEq, Eq, Structural)]
pub struct LoadSnapshot {
    pub load1: u64,
    pub load5: u64,
    pub load15: u64,
}

/// One temperature sensor.
#[derive(Debug, Clone)]
pub struct TemperatureSnapshot {
    pub label: String,
    pub celsius: i64,
    pub max_celsius: Option<i64>,
    pub critical_celsius: Option<i64>,
}

/// An equal optional text.
pub fn copy_text(text: &Option<String>) -> (r: Option<String>)
    ensures
        r == *text,
{
    match text {
        Some(t) => Some(t.clone()),
        None => None,
    }
}

impl DiskSnapshot {
    /// An equal value.
    pub fn duplicate(&self) -> (r: DiskSnapshot)
        ensures
            r == *self,
    {
        DiskSnapshot {
            name: self.name.clone(),
            mount_point: self.mount_point.clone(),
            file_system: self.file_system.clone(),
            kind: self.kind.clone(),
            is_removable: self.is_removable,
            total_bytes: self.total_bytes,
            available_bytes: self.available_bytes,
            used_percent: self.used_percent,
            read_bytes_per_sec: self.read_bytes_per_sec,
            write_bytes_per_sec: self.write_bytes_per_sec,
        }
    }
}

impl NetworkSnapshot {
    /// An equal value.
    pub fn duplicate(&self) -> (r: NetworkSnapshot)
        ensures
            r == *self,
    {
        NetworkSnapshot {
            interface: self.interface.clone(),
            received_bytes_per_sec: self.received_bytes_per_sec,
            transmitted_bytes_per_sec: self.transmitted_bytes_per_sec,
            received_packets_per_sec: self.received_packets_per_sec,
            transmitted_packets_per_sec: self.transmitted_packets_per_sec,
            received_errors_per_sec: self.received_errors_per_sec,
            transmitted_errors_per_sec: self.transmitted_errors_per_sec,
        }
    }
}

impl ProcessSnapshot {
    /// An equal value.
    pub fn duplicate(&self) -> (r: ProcessSnapshot)
        ensures
            r == *self,
    {
        ProcessSnapshot {
            pid: self.pid,
            name: self.name.clone(),
            display_name: copy_text(&self.display_name),
            cmd: self.cmd.clone(),
            cpu_usage_percent: self.cpu_usage_percent,
            cpu_time_ms: self.cpu_time_ms,
            memory_bytes: self.memory_bytes,
            phys_footprint_bytes: self.phys_footprint_bytes,
            virtual_memory_bytes: self.virtual_memory_bytes,
            run_time_secs: self.run_time_secs,
            parent_pid: self.parent_pid,
            user_id: copy_text(&self.user_id),
            status: self.status.clone(),
            read_bytes_per_sec: self.read_bytes_per_sec,
            write_bytes_per_sec: self.write_bytes_per_sec,
        }
    }
}

impl ProcessGroupSnapshot {
    /// An equal value.
    pub fn duplicate(&self) -> (r: ProcessGroupSnapshot)
        ensures
            r == *self,
    {
        ProcessGroupSnapshot {
            root_pid: self.root_pid,
            name: self.name.clone(),
            display_name: copy_text(&self.display_name),
            process_count: self.process_count,
            cpu_usage_percent: self.cpu_usage_percent,
            memory_bytes: self.memory_bytes,
            phys_footprint_bytes: self.phys_footprint_bytes,
            read_bytes_per_sec: self.read_bytes_per_sec,
            write_bytes_per_sec: self.write_bytes_per_sec,
        }
    }
}

impl TemperatureSnapshot {
    /// An equal value.
    pub fn duplicate(&self) -> (r: TemperatureSnapshot)
        ensures
            r == *self,
    {
        TemperatureSnapshot {
            label: self.label.clone(),
            celsius: self.celsius,
            max_celsius: self.max_celsius,
            critical_celsius: self.critical_celsius,
        }
    }
}

impl BatterySnapshot {
    /// An equal value.
    pub fn duplicate(&self) -> (r: BatterySnapshot)
        ensures
            r == *self,
    {
        BatterySnapshot {
            state: self.state.clone(),
            charge_percent: self.charge_percent,
            health_percent: self.health_percent,
            cycle_count: self.cycle_count,
            temperature_celsius: self.temperature_celsius,
            power_watts: self.power_watts,
            time_to_full_secs: self.time_to_full_secs,
            time_to_empty_secs: self.time_to_empty_secs,
        }
    }
}

impl GpuSnapshot {
    /// An equal value.
    pub fn duplicate(&self) -> (r: GpuSnapshot)
        ensures
            r == *self,
    {
        GpuSnapshot {
            name: self.name.clone(),
            cores: self.cores,
            utilization_percent: self.utilization_percent,
            renderer_utilization_percent: self.renderer_utilization_percent,
            tiler_utilization_percent: self.tiler_utilization_percent,
            memory_in_use_bytes: self.memory_in_use_bytes,
            memory_allocated_bytes: self.memory_allocated_bytes,
        }
    }
}

impl DriveSnapshot {
    /// An equal value.
    pub fn duplicate(&self) -> (r: DriveSnapshot)
        ensures
            r == *self,
    {
        DriveSnapshot {
            name: self.name.clone(),
            model: copy_text(&self.model),
            size_bytes: self.size_bytes,
            is_removable: self.is_removable,
            read_ops_per_sec: self.read_ops_per_sec,
            write_ops_per_sec: self.write_ops_per_sec,
            read_bytes_per_sec: self.read_bytes_per_sec,
            write_bytes_per_sec: self.write_bytes_per_sec,
            read_latency_ms: self.read_latency_ms,
            write_latency_ms: self.write_latency_ms,
            queue_depth: self.queue_depth,
            read_errors: self.read_errors,
            write_errors: self.write_errors,
        }
    }
}

} // verus!
