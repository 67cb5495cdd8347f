//! Drives: their rates and service times.
use vstd::prelude::*;
use vstd::string::*;
use super::registry::{DriveCounters, GpuSample};
use crate::number::UNIT;
use crate::rate::{capped64, rate_of, rate_per_sec};
use crate::snapshot::{copy_text, DriveSnapshot, GpuSnapshot};
use crate::text::same_text;
use crate::time::Duration;

verus! {

/// Whether a counter went back, as when the drive was detached meanwhile.
pub open spec fn went_back(prev: DriveCounters, now: DriveCounters) -> bool {
    ||| now.read_ops < prev.read_ops
    ||| now.write_ops < prev.write_ops
    ||| now.read_bytes < prev.read_bytes
    ||| now.write_bytes < prev.write_bytes
    ||| now.read_time_ns < prev.read_time_ns
    ||| now.write_time_ns < prev.write_time_ns
}

/// The mean time of an operation, in nanoseconds, rounded down; nothing without
/// operations.
pub open spec fn mean_time(ops: nat, time: nat) -> Option<u64> {
    if ops == 0 {
        None
    } else {
        Some((time / ops) as u64)
    }
}

/// The mean number of operations in flight, in millionths, rounded down.
pub open spec fn queue_of(time: nat, elapsed: Duration) -> Option<u64> {
    if elapsed.nanos == 0 {
        None
    } else {
        Some(capped64(time * UNIT as nat / elapsed.nanos as nat))
    }
}

/// The place of the drive of that name; their number where there is none.
pub open spec fn drive_place(drives: Seq<DriveCounters>, name: Seq<char>) -> int
    decreases drives.len(),
{
    if drives.len() == 0 || drives[0].name@ == name {
        0
    } else {
        1 + drive_place(drives.drop_first(), name)
    }
}

/// The counters to compare with: those of the drive of that name, unless one
/// went back.
pub open spec fn drive_base(last: Seq<DriveCounters>, now: DriveCounters) -> Option<DriveCounters> {
    let k = drive_place(last, now.name@);
    if k < last.len() && !went_back(last[k], now) {
        Some(last[k])
    } else {
        None
    }
}

/// The snapshot of a drive. Without counters to compare with it has no rates.
pub open spec fn drive_snapshot(
    last: Seq<DriveCounters>,
    now: DriveCounters,
    elapsed: Option<Duration>,
) -> DriveSnapshot {
    let known = elapsed is Some && drive_base(last, now) is Some;
    let p = drive_base(last, now)->0;
    let d = elapsed->0;
    DriveSnapshot {
        name: now.name,
        model: now.model,
        size_bytes: now.size_bytes,
        is_removable: now.is_removable,
        read_ops_per_sec: if known {
            Some(rate_of(p.read_ops, now.read_ops, d))
        } else {
            None
        },
        write_ops_per_sec: if known {
            Some(rate_of(p.write_ops, now.write_ops, d))
        } else {
            None
        },
        read_bytes_per_sec: if known {
            Some(rate_of(p.read_bytes, now.read_bytes, d))
        } else {
            None
        },
        write_bytes_per_sec: if known {
            Some(rate_of(p.write_bytes, now.write_bytes, d))
        } else {
            None
        },
        read_latency_ms: if known {
            mean_time(
                (now.read_ops - p.read_ops) as nat,
                (now.read_time_ns - p.read_time_ns) as nat,
            )
        } else {
            None
        },
        write_latency_ms: if known {
            mean_time(
                (now.write_ops - p.write_ops) as nat,
                (now.write_time_ns - p.write_time_ns) as nat,
            )
        } else {
            None
        },
        queue_depth: if known {
            queue_of(
                (now.read_time_ns - p.read_time_ns + (now.write_time_ns - p.write_time_ns)) as nat,
                d,
            )
        } else {
            None
        },
        read_errors: now.read_errors,
        write_errors: now.write_errors,
    }
}

/// The mean time of an operation.
fn mean(ops: u64, time: u64) -> (r: Option<u64>)
    ensures
        r == mean_time(ops as nat, time as nat),
{
    if ops == 0 {
        None
    } else {
        assert(time / ops <= time) by (nonlinear_arith)
            requires
                ops >= 1,
                time >= 0,
        ;
        Some(time / ops)
    }
}

/// The mean number of operations in flight.
fn queue(time: u128, elapsed: Duration) -> (r: Option<u64>)
    requires
        time <= 0x2_0000_0000_0000_0000,
    ensures
        r == queue_of(time as nat, elapsed),
{
    if elapsed.nanos == 0 {
        None
    } else {
        let depth: u128 = time * UNIT as u128 / elapsed.nanos;
        if depth > u64::MAX as u128 {
            Some(u64::MAX)
        } else {
            Some(depth as u64)
        }
    }
}

/// The place of the drive of that name.
fn find_drive(drives: &Vec<DriveCounters>, name: &str) -> (r: usize)
    ensures
        r == drive_place(drives@, name@),
        r <= drives@.len(),
{
    let mut k: usize = 0;
    assert(drives@.skip(0) =~= drives@);
    while k < drives.len() && !same_text(drives[k].name.as_str(), name)
        invariant
            k <= drives@.len(),
            drive_place(drives@, name@) == k + drive_place(drives@.skip(k as int), name@),
        decreases drives@.len() - k,
    {
        assert(drives@.skip(k as int).drop_first() =~= drives@.skip(k as int + 1));
        k += 1;
    }
    k
}

/// The snapshot of one drive.
fn show_drive(last: &Vec<DriveCounters>, now: &DriveCounters, elapsed: Option<Duration>) -> (r:
    DriveSnapshot)
    ensures
        r == drive_snapshot(last@, *now, elapsed),
{
    let mut r = DriveSnapshot {
        name: now.name.clone(),
        model: copy_text(&now.model),
        size_bytes: now.size_bytes,
        is_removable: now.is_removable,
        read_ops_per_sec: None,
        write_ops_per_sec: None,
        read_bytes_per_sec: None,
        write_bytes_per_sec: None,
        read_latency_ms: None,
        write_latency_ms: None,
        queue_depth: None,
        read_errors: now.read_errors,
        write_errors: now.write_errors,
    };
    let k: usize = find_drive(last, now.name.as_str());
    if let Some(d) = elapsed {
        if k < last.len() {
            let p = &last[k];
            let back: bool = now.read_ops < p.read_ops || now.write_ops < p.write_ops
                || now.read_bytes < p.read_bytes || now.write_bytes < p.write_bytes
                || now.read_time_ns < p.read_time_ns || now.write_time_ns < p.write_time_ns;
            if !back {
                let read_time: u64 = now.read_time_ns - p.read_time_ns;
                let write_time: u64 = now.write_time_ns - p.write_time_ns;
                r.read_ops_per_sec = Some(rate_per_sec(p.read_ops, now.read_ops, d));
                r.write_ops_per_sec = Some(rate_per_sec(p.write_ops, now.write_ops, d));
                r.read_bytes_per_sec = Some(rate_per_sec(p.read_bytes, now.read_bytes, d));
                r.write_bytes_per_sec = Some(rate_per_sec(p.write_bytes, now.write_bytes, d));
                r.read_latency_ms = mean(now.read_ops - p.read_ops, read_time);
                r.write_latency_ms = mean(now.write_ops - p.write_ops, write_time);
                r.queue_depth = queue(read_time as u128 + write_time as u128, d);
            }
        }
    }
    r
}

/// The snapshots of the drives, from their counters now and at the reading
/// before.
pub fn build_drives(
    last: &Vec<DriveCounters>,
    now: &Vec<DriveCounters>,
    elapsed: Option<Duration>,
) -> (r: Vec<DriveSnapshot>)
    ensures
        r@ == now@.map_values(|d: DriveCounters| drive_snapshot(last@, d, elapsed)),
{
    let mut out: Vec<DriveSnapshot> = Vec::new();
    for i in 0..now.len()
        invariant
            out@ =~= now@.map_values(|d: DriveCounters| drive_snapshot(last@, d, elapsed)).take(
                i as int,
            ),
    {
        out.push(show_drive(last, &now[i], elapsed));
    }
    assert(out@ =~= now@.map_values(|d: DriveCounters| drive_snapshot(last@, d, elapsed)));
    out
}

/// The snapshot of a graphics processor.
pub open spec fn gpu_snapshot(g: GpuSample) -> GpuSnapshot {
    GpuSnapshot {
        name: g.name,
        cores: g.cores,
        utilization_percent: g.utilization_percent,
        renderer_utilization_percent: g.renderer_utilization_percent,
        tiler_utilization_percent: g.tiler_utilization_percent,
        memory_in_use_bytes: g.memory_in_use_bytes,
        memory_allocated_bytes: g.memory_allocated_bytes,
    }
}

/// The snapshots of the graphics processors.
pub fn build_gpus(samples: &Vec<GpuSample>) -> (r: Vec<GpuSnapshot>)
    ensures
        r@ == samples@.map_values(|g: GpuSample| gpu_snapshot(g)),
{
    let mut out: Vec<GpuSnapshot> = Vec::new();
    for i in 0..samples.len()
        invariant
            out@ =~= samples@.map_values(|g: GpuSample| gpu_snapshot(g)).take(i as int),
    {
        let g = &samples[i];
        out.push(
            GpuSnapshot {
                name: g.name.clone(),
                cores: g.cores,
                utilization_percent: g.utilization_percent,
                renderer_utilization_percent: g.renderer_utilization_percent,
                tiler_utilization_percent: g.tiler_utilization_percent,
                memory_in_use_bytes: g.memory_in_use_bytes,
                memory_allocated_bytes: g.memory_allocated_bytes,
            },
        );
    }
    assert(out@ =~= samples@.map_values(|g: GpuSample| gpu_snapshot(g)));
    out
}

/// A drive whose counters went back, as when it was detached and attached again,
/// has no rates for that span.
pub proof fn law_reattached_drive_has_no_rates(
    last: Seq<DriveCounters>,
    now: DriveCounters,
    elapsed: Option<Duration>,
)
    requires
        drive_place(last, now.name@) < last.len(),
        went_back(last[drive_place(last, now.name@)], now),
    ensures
        ({
            let d = drive_snapshot(last, now, elapsed);
            &&& d.read_ops_per_sec is None
            &&& d.write_ops_per_sec is None
            &&& d.read_bytes_per_sec is None
            &&& d.write_bytes_per_sec is None
            &&& d.read_latency_ms is None
            &&& d.write_latency_ms is None
            &&& d.queue_depth is None
        }),
{
}

} // verus!
