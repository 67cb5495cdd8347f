//! When each part of a snapshot is read anew.
use vstd::prelude::*;
use super::local::{
    after_battery_plan, after_disk_plan, after_drive_plan, after_frequency_plan, after_gpu_plan,
    after_network_plan, after_process_plan, after_temperature_plan, battery_plan, capacity_due,
    disk_plan, drive_plan, fresh_collector, frequency_due, gpu_plan, network_plan, process_plan,
    temperature_plan, CollectorState, Plan, Timers,
};
use crate::config::CollectorView;
use crate::time::{Duration, Instant};

verus! {

/// Whether so much time has passed since something was last read; always where it
/// never was.
pub open spec fn has_passed(interval: Duration, last: Option<Instant>, now: Instant) -> bool {
    last is None || (if last->0.nanos <= now.nanos {
        now.nanos - last->0.nanos
    } else {
        0
    }) >= interval.nanos
}

/// Whether a plan is the right one: nothing for what is off, a new reading for what
/// is due, with the time since the one before where there was one, and what was
/// last read else.
pub open spec fn is_plan(
    plan: Plan,
    on: bool,
    interval: Duration,
    last: Option<Instant>,
    now: Instant,
) -> bool {
    &&& plan is Off <==> !on
    &&& plan is Refresh <==> on && has_passed(interval, last, now)
    &&& plan is Refresh ==> (plan->Refresh_0 is Some <==> last is Some)
    &&& plan is Refresh && last is Some ==> plan->Refresh_0->0.nanos == if last->0.nanos
        <= now.nanos {
        now.nanos - last->0.nanos
    } else {
        0
    }
}

/// The time of the last reading, once a plan is made.
pub open spec fn read_at(plan: Plan, last: Option<Instant>, now: Instant) -> Option<Instant> {
    match plan {
        Plan::Refresh(_) => Some(now),
        _ => last,
    }
}

/// Each part of a snapshot goes by its own switch, its own interval and the time
/// of its own last reading, and a plan to read it changes that time alone.
pub proof fn law_each_part_has_its_own_interval(s: CollectorState, now: Instant, readable: bool)
    ensures
        ({
            let c = s.config;
            let t = s.timers;
            let networks = network_plan(s, now);
            let temperatures = temperature_plan(s, now);
            let gpus = gpu_plan(s, now);
            let drives = drive_plan(s, now);
            let battery = battery_plan(s, now, readable);
            let disks = disk_plan(s, now);
            &&& is_plan(networks, c.collect_networks, c.network_refresh_interval, t.network, now)
            &&& after_network_plan(s, now) == (CollectorState {
                timers: Timers { network: read_at(networks, t.network, now), ..t },
                ..s
            })
            &&& is_plan(
                temperatures,
                c.collect_temperatures,
                c.temperature_refresh_interval,
                t.temperature,
                now,
            )
            &&& after_temperature_plan(s, now) == (CollectorState {
                timers: Timers { temperature: read_at(temperatures, t.temperature, now), ..t },
                ..s
            })
            &&& is_plan(gpus, c.collect_gpu, c.gpu_refresh_interval, t.gpu, now)
            &&& after_gpu_plan(s, now) == (CollectorState {
                timers: Timers { gpu: read_at(gpus, t.gpu, now), ..t },
                ..s
            })
            &&& is_plan(drives, c.collect_drives, c.drive_refresh_interval, t.drive, now)
            &&& after_drive_plan(s, now) == (CollectorState {
                timers: Timers { drive: read_at(drives, t.drive, now), ..t },
                ..s
            })
            &&& is_plan(
                battery,
                c.collect_battery && readable,
                c.battery_refresh_interval,
                t.battery,
                now,
            )
            &&& after_battery_plan(s, now, readable) == (CollectorState {
                timers: Timers { battery: read_at(battery, t.battery, now), ..t },
                ..s
            })
            &&& is_plan(disks, c.collect_disks, c.disk_io_refresh_interval, t.disk_io, now)
            &&& capacity_due(s, now) <==> disks is Refresh && has_passed(
                c.disk_storage_refresh_interval,
                t.disk_storage,
                now,
            )
            &&& after_disk_plan(s, now) == (CollectorState {
                timers: Timers {
                    disk_io: read_at(disks, t.disk_io, now),
                    disk_storage: if capacity_due(s, now) {
                        Some(now)
                    } else {
                        t.disk_storage
                    },
                    ..t
                },
                ..s
            })
            &&& frequency_due(s, now) <==> has_passed(
                c.cpu_frequency_refresh_interval,
                t.cpu_frequency,
                now,
            )
            &&& after_frequency_plan(s, now) == (CollectorState {
                timers: Timers {
                    cpu_frequency: if frequency_due(s, now) {
                        Some(now)
                    } else {
                        t.cpu_frequency
                    },
                    ..t
                },
                ..s
            })
        }),
{
}

/// Processes are read anew when they are due, and in every round in which as many
/// cores are busy as the threshold says: the usage of all cores is a percentage, in
/// millionths, and the threshold a number of cores, in millionths. No threshold, or
/// one of zero, leaves them to their interval.
pub proof fn law_processes_are_read_while_busy(
    s: CollectorState,
    now: Instant,
    usage: u64,
    cores: u32,
)
    ensures
        ({
            let c = s.config;
            let t = s.timers;
            let plan = process_plan(s, now, usage, cores);
            let threshold = c.process_boost_cpu_cores;
            let busy = threshold is Some && threshold->0 > 0 && cores > 0 && usage * cores
                >= threshold->0 * 100;
            &&& plan is Off <==> !c.collect_processes
            &&& plan is Refresh <==> c.collect_processes && (busy || has_passed(
                c.process_refresh_interval,
                t.process,
                now,
            ))
            &&& plan is Refresh ==> is_plan(plan, true, Duration { nanos: 0 }, t.process, now)
            &&& after_process_plan(s, now, usage, cores) == (CollectorState {
                timers: Timers { process: read_at(plan, t.process, now), ..t },
                ..s
            })
        }),
{
    assert(usage * cores == cores * usage) by (nonlinear_arith);
}

/// A new collector has read nothing but the capacity of the volumes, where they
/// are collected, and the processor frequency.
pub proof fn law_new_collector(config: CollectorView, levels: Seq<(String, u32)>, now: Instant)
    ensures
        ({
            let s = fresh_collector(config, levels, now);
            &&& s.config == config
            &&& s.perf_levels == levels
            &&& s.timers.disk_storage == if config.collect_disks {
                Some(now)
            } else {
                None
            }
            &&& s.timers.cpu_frequency == Some(now)
            &&& s.timers.disk_io is None && s.timers.network is None && s.timers.process is None
            &&& s.timers.temperature is None && s.timers.battery is None && s.timers.gpu is None
            &&& s.timers.drive is None
            &&& s.disk_counters.dom() =~= Set::empty() && s.net_counters.dom() =~= Set::empty()
            &&& s.process_counters.dom() =~= Set::empty() && s.cpu_times.dom() =~= Set::empty()
            &&& s.drive_counters.len() == 0 && s.swap is None
            &&& s.disks is None && s.networks is None && s.processes is None && s.groups is None
            &&& s.temperatures is None && s.battery is None && s.gpus is None && s.drives is None
        }),
{
}

} // verus!
