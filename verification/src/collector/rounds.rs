//! What a round shows of what was counted since the round before.
use vstd::prelude::*;
use super::cpu::CpuTimeBaseline;
use super::disks::DiskCounters;
use super::drives::{drive_base, drive_place, drive_snapshot, mean_time};
use super::groups::{top_groups, GroupTotals, ProcNode};
use super::local::{
    after_percents, first_brand, first_known, memory_snapshot, next_round, shows_round, CollectorState, Plan, RawMemory,
    Readings, RoundPlan, SwapReading, Timers,
};
use super::processes::{
    baselines_of, keys_of, lemma_pid_place, nodes_of, percent_for, percent_since, percents_of,
    process_counters_of, process_rates, raw_of, shows, shows_group, RawProcess,
};
use super::registry::DriveCounters;
use super::select::{lemma_selected_from, selected, ProcKey};
use super::sensors::hottest_first;
use super::shares::{
    is_quotient, is_share, is_usage, law_percentage_is_the_share, law_usage_is_the_share_of_a_core,
    lemma_quotient,
};
use crate::rate::{is_rate, law_rate_is_the_nearest, law_throughput, rate_of};
use crate::snapshot::{
    DriveSnapshot, MemorySnapshot, ProcessGroupSnapshot, ProcessSnapshot, SystemSnapshot,
};
use crate::text::trimmed;
use crate::time::{nanos_since, Duration, Instant};

verus! {

/// Whether each pid occurs once.
pub open spec fn pids_once(raws: Seq<RawProcess>) -> bool {
    forall|i: int, j: int|
        0 <= i < raws.len() && 0 <= j < raws.len() && (#[trigger] raws[i]).pid == (
        #[trigger] raws[j]).pid ==> i == j
}

/// Whether `cpu` is the processor use of a process since the reading before: zero
/// where that one did not have it.
pub open spec fn used_since(
    cpu: u64,
    raw: RawProcess,
    before: Seq<RawProcess>,
    nanos: u128,
) -> bool {
    &&& forall|j: int|
        0 <= j < before.len() && (#[trigger] before[j]).pid == raw.pid ==> is_usage(
            cpu,
            before[j].cpu_time_ms,
            before[j].start_time_secs,
            raw.cpu_time_ms,
            raw.start_time_secs,
            nanos,
        )
    &&& (forall|j: int| 0 <= j < before.len() ==> (#[trigger] before[j]).pid != raw.pid) ==> cpu
        == 0
}

/// Whether a process is shown with what it read and wrote each second since the
/// reading before: nothing where that one did not have it, or where that is not
/// collected.
pub open spec fn moved_since(
    p: ProcessSnapshot,
    raw: RawProcess,
    before: Seq<RawProcess>,
    collect: bool,
    nanos: u128,
) -> bool {
    &&& collect ==> forall|j: int|
        0 <= j < before.len() && (#[trigger] before[j]).pid == raw.pid ==> {
            &&& p.read_bytes_per_sec is Some
            &&& is_rate(
                p.read_bytes_per_sec->0,
                before[j].disk.total_read_bytes,
                raw.disk.total_read_bytes,
                nanos,
            )
            &&& p.write_bytes_per_sec is Some
            &&& is_rate(
                p.write_bytes_per_sec->0,
                before[j].disk.total_written_bytes,
                raw.disk.total_written_bytes,
                nanos,
            )
        }
    &&& !collect || (forall|j: int|
        0 <= j < before.len() ==> (#[trigger] before[j]).pid != raw.pid) ==> {
        p.read_bytes_per_sec is None && p.write_bytes_per_sec is None
    }
}

/// Whether a process is shown as the system reports it.
pub open spec fn shows_process(p: ProcessSnapshot, raw: RawProcess) -> bool {
    &&& p.pid == raw.pid
    &&& p.name == raw.name
    &&& p.cpu_time_ms == raw.cpu_time_ms
    &&& p.memory_bytes == raw.memory_bytes
    &&& p.phys_footprint_bytes == raw.footprint_bytes
    &&& p.virtual_memory_bytes == raw.virtual_memory_bytes
    &&& p.run_time_secs == raw.run_time_secs
    &&& p.parent_pid == raw.parent_pid
    &&& p.user_id == raw.user_id
    &&& p.status == raw.status
}

/// Whether a process is one of those that the system reports, shown as it should
/// be.
pub open spec fn shown_from(
    p: ProcessSnapshot,
    raws: Seq<RawProcess>,
    before: Seq<RawProcess>,
    collect: bool,
    nanos: u128,
) -> bool {
    exists|i: int|
        0 <= i < raws.len() && shows_process(p, #[trigger] raws[i]) && used_since(
            p.cpu_usage_percent,
            raws[i],
            before,
            nanos,
        ) && moved_since(p, raws[i], before, collect, nanos)
}

/// The counters of the processes, by pid.
proof fn lemma_baselines(raws: Seq<RawProcess>, pid: u32)
    requires
        pids_once(raws),
    ensures
        baselines_of(raws).contains_key(pid) <==> exists|j: int|
            0 <= j < raws.len() && (#[trigger] raws[j]).pid == pid,
        process_counters_of(raws).contains_key(pid) <==> exists|j: int|
            0 <= j < raws.len() && (#[trigger] raws[j]).pid == pid,
        forall|j: int|
            0 <= j < raws.len() && (#[trigger] raws[j]).pid == pid ==> baselines_of(raws)[pid] == (
            CpuTimeBaseline {
                cpu_time_ms: raws[j].cpu_time_ms,
                start_time_secs: raws[j].start_time_secs,
            }) && process_counters_of(raws)[pid] == raws[j].disk,
    decreases raws.len(),
{
    if raws.len() > 0 {
        let rest = raws.drop_last();
        lemma_once(raws);
        lemma_baselines(rest, pid);
        let n = raws.len() - 1;
        assert(raws.last() == raws[n]);
        if exists|j: int| 0 <= j < rest.len() && (#[trigger] rest[j]).pid == pid {
            let j = choose|j: int| 0 <= j < rest.len() && (#[trigger] rest[j]).pid == pid;
            assert(raws[j].pid == pid);
        }
        if exists|j: int| 0 <= j < raws.len() && (#[trigger] raws[j]).pid == pid {
            let j = choose|j: int| 0 <= j < raws.len() && (#[trigger] raws[j]).pid == pid;
            if j < rest.len() {
                assert(rest[j].pid == pid);
            }
        }
        assert forall|j: int|
            0 <= j < raws.len() && (#[trigger] raws[j]).pid == pid implies baselines_of(raws)[pid]
            == (CpuTimeBaseline {
            cpu_time_ms: raws[j].cpu_time_ms,
            start_time_secs: raws[j].start_time_secs,
        }) && process_counters_of(raws)[pid] == raws[j].disk by {
            if j < rest.len() {
                assert(rest[j].pid == pid);
                assert(raws[n].pid != raws[j].pid);
            }
        }
    }
}

/// Fewer processes with pids that differ.
proof fn lemma_once(raws: Seq<RawProcess>)
    requires
        pids_once(raws),
        raws.len() > 0,
    ensures
        pids_once(raws.drop_last()),
{
    let rest = raws.drop_last();
    assert forall|i: int, j: int|
        0 <= i < rest.len() && 0 <= j < rest.len() && (#[trigger] rest[i]).pid == (
        #[trigger] rest[j]).pid implies i == j by {
        assert(raws[i].pid == raws[j].pid);
    }
}

/// The processor use of a process.
proof fn lemma_percents(
    last: Map<u32, CpuTimeBaseline>,
    raws: Seq<RawProcess>,
    elapsed: Option<Duration>,
    i: int,
)
    requires
        pids_once(raws),
        0 <= i < raws.len(),
    ensures
        percents_of(last, raws, elapsed).contains_key(raws[i].pid),
        percents_of(last, raws, elapsed)[raws[i].pid] == percent_since(last, raws[i], elapsed),
    decreases raws.len(),
{
    let rest = raws.drop_last();
    lemma_once(raws);
    if i < rest.len() {
        assert(rest[i] == raws[i]);
        lemma_percents(last, rest, elapsed, i);
        assert(raws[raws.len() - 1].pid != raws[i].pid);
    }
}

/// The process of a pid.
proof fn lemma_raw_of(raws: Seq<RawProcess>, i: int)
    requires
        pids_once(raws),
        0 <= i < raws.len(),
    ensures
        raw_of(raws, raws[i].pid) == raws[i],
{
    lemma_pid_place(raws, raws[i].pid);
}

/// What a process used and moved since the reading before.
proof fn lemma_since(
    before: Seq<RawProcess>,
    raws: Seq<RawProcess>,
    d: Duration,
    collect: bool,
    i: int,
)
    requires
        pids_once(before),
        pids_once(raws),
        0 <= i < raws.len(),
    ensures
        used_since(
            percent_for(percents_of(baselines_of(before), raws, Some(d)), raws[i].pid),
            raws[i],
            before,
            d.nanos,
        ),
        forall|p: ProcessSnapshot, last: Map<u32, DiskCounters>|
            (collect ==> last == process_counters_of(before)) && p.read_bytes_per_sec
                == process_rates(collect, last, raws[i], Some(d)).0 && p.write_bytes_per_sec
                == (#[trigger] process_rates(collect, last, raws[i], Some(d))).1
                ==> #[trigger] moved_since(p, raws[i], before, collect, d.nanos),
{
    let raw = raws[i];
    lemma_baselines(before, raw.pid);
    lemma_percents(baselines_of(before), raws, Some(d), i);
    assert forall|j: int| 0 <= j < before.len() && (#[trigger] before[j]).pid == raw.pid implies
        is_usage(
            percent_since(baselines_of(before), raw, Some(d)),
            before[j].cpu_time_ms,
            before[j].start_time_secs,
            raw.cpu_time_ms,
            raw.start_time_secs,
            d.nanos,
        ) && is_rate(
            rate_of(before[j].disk.total_read_bytes, raw.disk.total_read_bytes, d),
            before[j].disk.total_read_bytes,
            raw.disk.total_read_bytes,
            d.nanos,
        ) && is_rate(
            rate_of(
                before[j].disk.total_written_bytes,
                raw.disk.total_written_bytes,
                d,
            ),
            before[j].disk.total_written_bytes,
            raw.disk.total_written_bytes,
            d.nanos,
        ) by {
        law_usage_is_the_share_of_a_core(
            baselines_of(before)[raw.pid],
            CpuTimeBaseline {
                cpu_time_ms: raw.cpu_time_ms,
                start_time_secs: raw.start_time_secs,
            },
            d,
        );
        law_rate_is_the_nearest(
            before[j].disk.total_read_bytes,
            raw.disk.total_read_bytes,
            d,
        );
        law_rate_is_the_nearest(
            before[j].disk.total_written_bytes,
            raw.disk.total_written_bytes,
            d,
        );
    }
}

/// Whether the keys are those by which the processes are ranked.
pub open spec fn are_keys(
    keys: Seq<ProcKey>,
    raws: Seq<RawProcess>,
    before: Seq<RawProcess>,
    nanos: u128,
) -> bool {
    &&& keys.len() == raws.len()
    &&& forall|i: int|
        0 <= i < raws.len() ==> {
            &&& (#[trigger] keys[i]).pid == raws[i].pid
            &&& keys[i].mem == raws[i].memory_bytes
            &&& used_since(keys[i].cpu, raws[i], before, nanos)
        }
}

/// In a round that reads the processes anew, some time after another did, each
/// process that is kept is shown as the system reports it, with the processor use
/// and the bytes moved since. Which ones are kept, and in which order, goes by their
/// use and their memory.
pub proof fn law_processes_over_two_rounds(
    s: CollectorState,
    plan1: RoundPlan,
    readings1: Readings,
    r1: SystemSnapshot,
    timers: Timers,
    plan2: RoundPlan,
    readings2: Readings,
    r2: SystemSnapshot,
    d: Duration,
)
    requires
        plan1.processes is Refresh,
        plan2.processes == Plan::Refresh(Some(d)),
        pids_once(readings1.processes@),
        pids_once(readings2.processes@),
        shows_round(
            (CollectorState { timers, ..next_round(s, plan1, readings1, r1) }),
            plan2,
            readings2,
            r2,
        ),
    ensures
        ({
            let before = readings1.processes@;
            let raws = readings2.processes@;
            let list = r2.processes->0@;
            let max = s.config.max_processes as nat;
            &&& r2.processes is Some
            &&& forall|k: int|
                0 <= k < list.len() ==> shown_from(
                    #[trigger] list[k],
                    raws,
                    before,
                    s.config.collect_process_disk_io,
                    d.nanos,
                )
            &&& exists|keys: Seq<ProcKey>| #[trigger]
                are_keys(keys, raws, before, d.nanos) && list.len() == selected(keys, max).len()
                    && forall|k: int|
                    0 <= k < list.len() ==> (#[trigger] list[k]).pid == selected(keys, max)[k].pid
        }),
{
    let before = readings1.processes@;
    let raws = readings2.processes@;
    let list = r2.processes->0@;
    let max = s.config.max_processes as nat;
    let collect = s.config.collect_process_disk_io;
    let s1 = CollectorState { timers, ..next_round(s, plan1, readings1, r1) };
    let s2 = after_percents(s1, plan2.processes, raws);
    assert(s1.cpu_times == baselines_of(before));
    assert(collect ==> s1.process_counters == process_counters_of(before));
    let percents = percents_of(baselines_of(before), raws, Some(d));
    assert(s2.cpu_percents == percents);
    assert(s2.config == s.config);
    let keys = keys_of(raws, percents);
    let kept = selected(keys, max);
    assert forall|i: int| 0 <= i < raws.len() implies {
        &&& (#[trigger] keys[i]).pid == raws[i].pid
        &&& keys[i].mem == raws[i].memory_bytes
        &&& used_since(keys[i].cpu, raws[i], before, d.nanos)
    } by {
        lemma_since(before, raws, d, collect, i);
    }
    assert(are_keys(keys, raws, before, d.nanos));
    lemma_selected_from(keys, max);
    assert forall|k: int| 0 <= k < list.len() implies shown_from(
        #[trigger] list[k],
        raws,
        before,
        collect,
        d.nanos,
    ) by {
        assert(kept.contains(kept[k]));
        let i = choose|i: int| 0 <= i < keys.len() && keys[i] == kept[k];
        assert(raws[i].pid == kept[k].pid);
        lemma_raw_of(raws, i);
        lemma_since(before, raws, d, collect, i);
        let rates = process_rates(collect, s2.process_counters, raws[i], Some(d));
        assert(shows(list[k], raws[i], percent_for(percents, raws[i].pid), rates));
        assert(shows_process(list[k], raws[i]));
        assert(moved_since(list[k], raws[i], before, collect, d.nanos));
    }
    assert forall|k: int| 0 <= k < list.len() implies (#[trigger] list[k]).pid
        == kept[k].pid by {
        assert(kept.contains(kept[k]));
        let i = choose|i: int| 0 <= i < keys.len() && keys[i] == kept[k];
        lemma_raw_of(raws, i);
    }
}

/// Whether the entries are those of the processes, for adding up trees.
pub open spec fn are_entries(
    table: Seq<(u32, ProcNode)>,
    raws: Seq<RawProcess>,
    before: Seq<RawProcess>,
    collect: bool,
    nanos: u128,
) -> bool {
    &&& table.len() == raws.len()
    &&& forall|i: int|
        0 <= i < raws.len() ==> {
            let node = (#[trigger] table[i]).1;
            &&& table[i].0 == raws[i].pid
            &&& node.parent == raws[i].parent_pid
            &&& node.start_time_secs == raws[i].start_time_secs
            &&& used_since(node.cpu, raws[i], before, nanos)
            &&& node.mem == raws[i].memory_bytes
            &&& node.footprint == raws[i].footprint_bytes
            &&& node.io is Some <==> collect
            &&& collect ==> node.io == Some((raws[i].read_bytes, raws[i].written_bytes))
        }
}

/// Whether a number of bytes in some time is shown as so many bytes a second.
pub open spec fn is_speed(r: Option<u64>, bytes: Option<u64>, nanos: u128) -> bool {
    &&& r is Some <==> bytes is Some && nanos > 0
    &&& r is Some ==> is_quotient(r->0, bytes->0 * 1_000_000_000, nanos as int)
}

/// Whether an application is shown with the totals of its tree, under the name of
/// its root.
pub open spec fn shows_tree(
    a: ProcessGroupSnapshot,
    g: GroupTotals,
    raws: Seq<RawProcess>,
    nanos: u128,
) -> bool {
    &&& a.root_pid == g.root_pid
    &&& forall|i: int| 0 <= i < raws.len() && (#[trigger] raws[i]).pid == g.root_pid ==> a.name
        == raws[i].name
    &&& a.process_count == g.process_count
    &&& a.cpu_usage_percent == g.cpu
    &&& a.memory_bytes == g.mem
    &&& a.phys_footprint_bytes is Some <==> g.any_footprint
    &&& g.any_footprint ==> a.phys_footprint_bytes == Some(g.footprint_sum)
    &&& is_speed(a.read_bytes_per_sec, g.read_bytes, nanos)
    &&& is_speed(a.write_bytes_per_sec, g.written_bytes, nanos)
}

/// In a round that reads the processes anew, some time after another did, the
/// applications are the trees of the processes, added up with what they used and
/// moved since.
pub proof fn law_apps_over_two_rounds(
    s: CollectorState,
    plan1: RoundPlan,
    readings1: Readings,
    r1: SystemSnapshot,
    timers: Timers,
    plan2: RoundPlan,
    readings2: Readings,
    r2: SystemSnapshot,
    d: Duration,
)
    requires
        plan1.processes is Refresh,
        plan2.processes == Plan::Refresh(Some(d)),
        pids_once(readings1.processes@),
        pids_once(readings2.processes@),
        shows_round(
            (CollectorState { timers, ..next_round(s, plan1, readings1, r1) }),
            plan2,
            readings2,
            r2,
        ),
    ensures
        ({
            let before = readings1.processes@;
            let raws = readings2.processes@;
            let list = r2.process_groups->0@;
            let max = s.config.max_processes as nat;
            &&& r2.process_groups is Some <==> s.config.collect_process_groups
            &&& s.config.collect_process_groups ==> exists|table: Seq<(u32, ProcNode)>| #[trigger]
                are_entries(table, raws, before, s.config.collect_process_disk_io, d.nanos)
                    && list.len() == top_groups(table, max).len() && forall|k: int|
                    0 <= k < list.len() ==> shows_tree(
                        #[trigger] list[k],
                        top_groups(table, max)[k],
                        raws,
                        d.nanos,
                    )
        }),
{
    let before = readings1.processes@;
    let raws = readings2.processes@;
    let list = r2.process_groups->0@;
    let max = s.config.max_processes as nat;
    let collect = s.config.collect_process_disk_io;
    let s1 = CollectorState { timers, ..next_round(s, plan1, readings1, r1) };
    let s2 = after_percents(s1, plan2.processes, raws);
    assert(s1.cpu_times == baselines_of(before));
    let percents = percents_of(baselines_of(before), raws, Some(d));
    assert(s2.cpu_percents == percents);
    assert(s2.config == s.config);
    if s.config.collect_process_groups {
        let table = nodes_of(raws, percents, collect);
        assert forall|i: int| 0 <= i < raws.len() implies {
            let node = (#[trigger] table[i]).1;
            &&& table[i].0 == raws[i].pid
            &&& node.parent == raws[i].parent_pid
            &&& node.start_time_secs == raws[i].start_time_secs
            &&& used_since(node.cpu, raws[i], before, d.nanos)
            &&& node.mem == raws[i].memory_bytes
            &&& node.footprint == raws[i].footprint_bytes
            &&& node.io is Some <==> collect
            &&& collect ==> node.io == Some((raws[i].read_bytes, raws[i].written_bytes))
        } by {
            lemma_since(before, raws, d, collect, i);
        }
        assert(are_entries(table, raws, before, collect, d.nanos));
        let groups = top_groups(table, max);
        assert forall|k: int| 0 <= k < list.len() implies shows_tree(
            #[trigger] list[k],
            groups[k],
            raws,
            d.nanos,
        ) by {
            let g = groups[k];
            assert(shows_group(list[k], raw_of(raws, g.root_pid), g, Some(d)));
            assert forall|i: int| 0 <= i < raws.len() && (#[trigger] raws[i]).pid
                == g.root_pid implies list[k].name == raws[i].name by {
                lemma_raw_of(raws, i);
            }
            law_throughput(g.read_bytes, Some(d));
            law_throughput(g.written_bytes, Some(d));
        }
    }
}

/// Where nothing was read before, every process is shown as idle, and without what
/// it moved.
pub proof fn law_first_processes_are_idle(
    s: CollectorState,
    plan: RoundPlan,
    readings: Readings,
    r: SystemSnapshot,
)
    requires
        plan.processes == Plan::Refresh(None),
        pids_once(readings.processes@),
        shows_round(s, plan, readings, r),
    ensures
        r.processes is Some,
        forall|k: int|
            0 <= k < r.processes->0@.len() ==> (
            #[trigger] r.processes->0@[k]).cpu_usage_percent == 0
                && r.processes->0@[k].read_bytes_per_sec is None
                && r.processes->0@[k].write_bytes_per_sec is None,
{
    let raws = readings.processes@;
    let list = r.processes->0@;
    let s2 = after_percents(s, plan.processes, raws);
    let percents = percents_of(s.cpu_times, raws, None);
    let keys = keys_of(raws, percents);
    let kept = selected(keys, s.config.max_processes as nat);
    lemma_selected_from(keys, s.config.max_processes as nat);
    assert forall|k: int| 0 <= k < list.len() implies (#[trigger] list[k]).cpu_usage_percent == 0
        && list[k].read_bytes_per_sec is None && list[k].write_bytes_per_sec is None by {
        assert(kept.contains(kept[k]));
        let i = choose|i: int| 0 <= i < keys.len() && keys[i] == kept[k];
        lemma_raw_of(raws, i);
        lemma_percents(s.cpu_times, raws, None, i);
    }
}

/// Whether each name occurs once.
pub open spec fn names_once(drives: Seq<DriveCounters>) -> bool {
    forall|i: int, j: int|
        0 <= i < drives.len() && 0 <= j < drives.len() && (#[trigger] drives[i]).name@ == (
        #[trigger] drives[j]).name@ ==> i == j
}

/// Whether no counter of a drive went back.
pub open spec fn counts_on(a: DriveCounters, b: DriveCounters) -> bool {
    &&& a.read_ops <= b.read_ops
    &&& a.write_ops <= b.write_ops
    &&& a.read_bytes <= b.read_bytes
    &&& a.write_bytes <= b.write_bytes
    &&& a.read_time_ns <= b.read_time_ns
    &&& a.write_time_ns <= b.write_time_ns
}

/// Whether `latency` is the mean time of so many operations; nothing of none.
pub open spec fn is_latency(latency: Option<u64>, ops: int, time: int) -> bool {
    &&& latency is Some <==> ops > 0
    &&& ops > 0 ==> latency->0 * ops <= time < (latency->0 + 1) * ops
}

/// Whether a drive is shown with its rates over that time: operations and bytes,
/// read and written, the mean time of a read and of a write, and the mean number of
/// operations in flight, in millionths.
pub open spec fn shows_drive_rates(
    s: DriveSnapshot,
    a: DriveCounters,
    b: DriveCounters,
    nanos: u128,
) -> bool {
    &&& s.read_ops_per_sec is Some && is_rate(
        s.read_ops_per_sec->0,
        a.read_ops,
        b.read_ops,
        nanos,
    )
    &&& s.write_ops_per_sec is Some && is_rate(
        s.write_ops_per_sec->0,
        a.write_ops,
        b.write_ops,
        nanos,
    )
    &&& s.read_bytes_per_sec is Some && is_rate(
        s.read_bytes_per_sec->0,
        a.read_bytes,
        b.read_bytes,
        nanos,
    )
    &&& s.write_bytes_per_sec is Some && is_rate(
        s.write_bytes_per_sec->0,
        a.write_bytes,
        b.write_bytes,
        nanos,
    )
    &&& is_latency(
        s.read_latency_ms,
        b.read_ops - a.read_ops,
        b.read_time_ns - a.read_time_ns,
    )
    &&& is_latency(
        s.write_latency_ms,
        b.write_ops - a.write_ops,
        b.write_time_ns - a.write_time_ns,
    )
    &&& s.queue_depth is Some <==> nanos > 0
    &&& nanos > 0 ==> is_quotient(
        s.queue_depth->0,
        (b.read_time_ns - a.read_time_ns + b.write_time_ns - a.write_time_ns) * 1_000_000,
        nanos as int,
    )
}

/// Whether a drive is shown without rates.
pub open spec fn shows_no_drive_rates(s: DriveSnapshot) -> bool {
    &&& s.read_ops_per_sec is None && s.write_ops_per_sec is None
    &&& s.read_bytes_per_sec is None && s.write_bytes_per_sec is None
    &&& s.read_latency_ms is None && s.write_latency_ms is None
    &&& s.queue_depth is None
}

/// Whether a drive is shown as it should be: with rates since the reading before,
/// if that one had it and no counter went back, and else without.
pub open spec fn shows_drive(
    s: DriveSnapshot,
    now: DriveCounters,
    before: Seq<DriveCounters>,
    nanos: u128,
) -> bool {
    &&& s.name == now.name
    &&& s.model == now.model
    &&& s.size_bytes == now.size_bytes
    &&& s.is_removable == now.is_removable
    &&& s.read_errors == now.read_errors
    &&& s.write_errors == now.write_errors
    &&& forall|j: int|
        0 <= j < before.len() && (#[trigger] before[j]).name@ == now.name@ ==> if counts_on(
            before[j],
            now,
        ) {
            shows_drive_rates(s, before[j], now, nanos)
        } else {
            shows_no_drive_rates(s)
        }
    &&& (forall|j: int| 0 <= j < before.len() ==> (#[trigger] before[j]).name@ != now.name@)
        ==> shows_no_drive_rates(s)
}

/// The place of a drive.
proof fn lemma_drive_place(drives: Seq<DriveCounters>, name: Seq<char>)
    ensures
        0 <= drive_place(drives, name) <= drives.len(),
        drive_place(drives, name) < drives.len() ==> drives[drive_place(drives, name)].name@
            == name,
        forall|j: int| 0 <= j < drives.len() && (#[trigger] drives[j]).name@ == name ==> drive_place(
            drives,
            name,
        ) <= j,
    decreases drives.len(),
{
    if drives.len() > 0 && drives[0].name@ != name {
        let rest = drives.drop_first();
        lemma_drive_place(rest, name);
        assert forall|j: int| 0 <= j < drives.len() && (#[trigger] drives[j]).name@
            == name implies drive_place(drives, name) <= j by {
            assert(j > 0);
            assert(rest[j - 1].name@ == name);
        }
    }
}

/// A mean time.
proof fn lemma_latency(ops: nat, time: nat)
    requires
        time <= u64::MAX,
    ensures
        is_latency(mean_time(ops, time), ops as int, time as int),
{
    if ops > 0 {
        let q = time / ops;
        assert(q * ops <= time < (q + 1) * ops && 0 <= q <= time) by (nonlinear_arith)
            requires
                ops > 0,
                time >= 0,
                q == time / ops,
        ;
    }
}

/// In a round that reads the drives anew, some time after another did, each drive
/// is shown with its rates since.
pub proof fn law_drives_over_two_rounds(
    s: CollectorState,
    plan1: RoundPlan,
    readings1: Readings,
    r1: SystemSnapshot,
    timers: Timers,
    plan2: RoundPlan,
    readings2: Readings,
    r2: SystemSnapshot,
    d: Duration,
)
    requires
        plan1.drives is Refresh,
        readings1.drives is Some,
        names_once(readings1.drives->0@),
        plan2.drives == Plan::Refresh(Some(d)),
        readings2.drives is Some,
        shows_round(
            (CollectorState { timers, ..next_round(s, plan1, readings1, r1) }),
            plan2,
            readings2,
            r2,
        ),
    ensures
        ({
            let before = readings1.drives->0@;
            let now = readings2.drives->0@;
            &&& r2.drives is Some
            &&& r2.drives->0@.len() == now.len()
            &&& forall|i: int|
                0 <= i < now.len() ==> shows_drive(
                    #[trigger] r2.drives->0@[i],
                    now[i],
                    before,
                    d.nanos,
                )
        }),
{
    let before = readings1.drives->0@;
    let now = readings2.drives->0@;
    let s1 = CollectorState { timers, ..next_round(s, plan1, readings1, r1) };
    assert(s1.drive_counters == before);
    let shown = r2.drives->0@;
    assert forall|i: int| 0 <= i < now.len() implies shows_drive(
        #[trigger] shown[i],
        now[i],
        before,
        d.nanos,
    ) by {
        let b = now[i];
        assert(shown[i] == drive_snapshot(before, b, Some(d)));
        lemma_drive_place(before, b.name@);
        let k = drive_place(before, b.name@);
        assert forall|j: int| 0 <= j < before.len() && (#[trigger] before[j]).name@
            == b.name@ implies j == k by {}
        if k < before.len() && counts_on(before[k], b) {
            let a = before[k];
            assert(drive_base(before, b) == Some(a));
            law_rate_is_the_nearest(a.read_ops, b.read_ops, d);
            law_rate_is_the_nearest(a.write_ops, b.write_ops, d);
            law_rate_is_the_nearest(a.read_bytes, b.read_bytes, d);
            law_rate_is_the_nearest(a.write_bytes, b.write_bytes, d);
            lemma_latency(
                (b.read_ops - a.read_ops) as nat,
                (b.read_time_ns - a.read_time_ns) as nat,
            );
            lemma_latency(
                (b.write_ops - a.write_ops) as nat,
                (b.write_time_ns - a.write_time_ns) as nat,
            );
            if d.nanos > 0 {
                lemma_quotient(
                    (b.read_time_ns - a.read_time_ns + b.write_time_ns - a.write_time_ns)
                        * 1_000_000,
                    d.nanos as int,
                );
            }
        }
    }
}

/// Whether a rate is that between two counts that are both known.
pub open spec fn is_known_rate(
    r: Option<u64>,
    before: Option<u64>,
    now: Option<u64>,
    nanos: u128,
) -> bool {
    &&& r is Some <==> before is Some && now is Some
    &&& r is Some ==> is_rate(r->0, before->0, now->0, nanos)
}

/// Whether the memory is shown as the system reports it, with its shares, and with
/// what the compressor moved each second since the reading before.
pub open spec fn shows_memory(
    m: MemorySnapshot,
    before: RawMemory,
    before_at: Instant,
    raw: RawMemory,
    at: Instant,
) -> bool {
    let (a, b) = (before.swap, raw.swap);
    let nanos = if before_at.nanos <= at.nanos {
        (at.nanos - before_at.nanos) as u128
    } else {
        0
    };
    &&& m.total_bytes == raw.total_bytes
    &&& m.used_bytes == raw.used_bytes
    &&& m.available_bytes == raw.available_bytes
    &&& m.swap_total_bytes == raw.swap_total_bytes
    &&& m.swap_used_bytes == raw.swap_used_bytes
    &&& is_share(m.used_percent, raw.used_bytes, raw.total_bytes)
    &&& is_share(m.swap_used_percent, raw.swap_used_bytes, raw.swap_total_bytes)
    &&& m.compressed_bytes == raw.compressed_bytes
    &&& m.pressure_level is Some <==> raw.pressure_level is Some && raw.pressure_level->0
        <= 0xffff_ffff
    &&& m.pressure_level is Some ==> m.pressure_level->0 == raw.pressure_level->0
    &&& is_known_rate(m.swap_ins_per_sec, a.ins, b.ins, nanos)
    &&& is_known_rate(m.swap_outs_per_sec, a.outs, b.outs, nanos)
    &&& m.swap_thrashing is Some <==> a.thrashes is Some && b.thrashes is Some
    &&& m.swap_thrashing is Some ==> m.swap_thrashing->0 == (b.thrashes->0 > a.thrashes->0)
}

/// The memory of a reading after another.
proof fn lemma_memory(before: RawMemory, before_at: Instant, raw: RawMemory, at: Instant)
    ensures
        shows_memory(
            memory_snapshot(Some(SwapReading { at: before_at, counters: before.swap }), at, raw),
            before,
            before_at,
            raw,
            at,
        ),
{
    let (a, b) = (before.swap, raw.swap);
    let d = Duration { nanos: nanos_since(at, before_at) as u128 };
    law_percentage_is_the_share(raw.used_bytes, raw.total_bytes);
    law_percentage_is_the_share(raw.swap_used_bytes, raw.swap_total_bytes);
    if a.ins is Some && b.ins is Some {
        law_rate_is_the_nearest(a.ins->0, b.ins->0, d);
    }
    if a.outs is Some && b.outs is Some {
        law_rate_is_the_nearest(a.outs->0, b.outs->0, d);
    }
}

/// What a round remembers of the memory.
proof fn lemma_swap_kept(
    s: CollectorState,
    plan: RoundPlan,
    readings: Readings,
    r: SystemSnapshot,
)
    ensures
        next_round(s, plan, readings, r).swap == Some(
            SwapReading { at: readings.at, counters: readings.memory.swap },
        ),
{
}

/// A round shows the memory as the system reports it, with its shares. What the
/// compressor moved since the round before is shown for each second, and so is
/// whether the kernel saw the same memory move out and in meanwhile.
pub proof fn law_memory_over_two_rounds(
    s: CollectorState,
    plan1: RoundPlan,
    readings1: Readings,
    r1: SystemSnapshot,
    timers: Timers,
    plan2: RoundPlan,
    readings2: Readings,
    r2: SystemSnapshot,
)
    requires
        shows_round(
            (CollectorState { timers, ..next_round(s, plan1, readings1, r1) }),
            plan2,
            readings2,
            r2,
        ),
    ensures
        shows_memory(
            r2.memory,
            readings1.memory,
            readings1.at,
            readings2.memory,
            readings2.at,
        ),
{
    let last = SwapReading { at: readings1.at, counters: readings1.memory.swap };
    lemma_swap_kept(s, plan1, readings1, r1);
    assert(r2.memory == memory_snapshot(Some(last), readings2.at, readings2.memory));
    lemma_memory(readings1.memory, readings1.at, readings2.memory, readings2.at);
}

/// A round shows the processors as the system reports them: the usage of each core
/// where that is on, the frequencies where any is known, the first of them that is,
/// and the first name that says something.
pub proof fn law_processors_of_a_round(
    s: CollectorState,
    plan: RoundPlan,
    readings: Readings,
    r: SystemSnapshot,
)
    requires
        shows_round(s, plan, readings, r),
    ensures
        ({
            let c = r.cpu;
            let raw = readings.cpu;
            let mhz = raw.per_core_frequency_mhz@;
            let known = exists|i: int| 0 <= i < mhz.len() && #[trigger] mhz[i] > 0;
            &&& c.usage_percent == raw.usage_percent
            &&& c.logical_cores == raw.per_core_usage@.len()
            &&& c.physical_cores == raw.physical_cores
            &&& s.config.per_core_cpu ==> c.per_core_usage@ == raw.per_core_usage@
            &&& !s.config.per_core_cpu ==> c.per_core_usage@.len() == 0
            &&& c.frequency_mhz is Some <==> known
            &&& known ==> c.per_core_frequency_mhz@ == mhz
            &&& !known ==> c.per_core_frequency_mhz@.len() == 0
            &&& forall|i: int|
                0 <= i < mhz.len() && #[trigger] mhz[i] > 0 && (forall|j: int|
                    0 <= j < i ==> #[trigger] mhz[j] == 0) ==> c.frequency_mhz == Some(mhz[i])
            &&& forall|i: int|
                0 <= i < raw.brands@.len() && trimmed((#[trigger] raw.brands@[i])@).len() > 0 && (
                forall|j: int|
                    0 <= j < i ==> trimmed((#[trigger] raw.brands@[j])@).len() == 0)
                    ==> c.brand is Some && c.brand->0@ == trimmed(raw.brands@[i]@)
        }),
{
    let mhz = readings.cpu.per_core_frequency_mhz@;
    let brands = readings.cpu.brands@;
    let k = lemma_first_known(mhz);
    let b = lemma_first_brand(brands);
    assert forall|i: int|
        0 <= i < mhz.len() && #[trigger] mhz[i] > 0 && (forall|j: int|
            0 <= j < i ==> #[trigger] mhz[j] == 0) implies i == k by {
        if k < i {
            assert(mhz[k] == 0);
        }
    }
    assert forall|i: int|
        0 <= i < brands.len() && trimmed((#[trigger] brands[i])@).len() > 0 && (forall|j: int|
            0 <= j < i ==> trimmed((#[trigger] brands[j])@).len() == 0) implies i == b by {
        if b < i {
            assert(trimmed(brands[b]@).len() == 0);
        }
    }
}

/// Where the first frequency that is known stands.
proof fn lemma_first_known(mhz: Seq<u64>) -> (k: int)
    ensures
        0 <= k <= mhz.len(),
        forall|j: int| 0 <= j < k ==> #[trigger] mhz[j] == 0,
        k < mhz.len() ==> mhz[k] > 0 && first_known(mhz) == Some(mhz[k]),
        k == mhz.len() ==> first_known(mhz) is None,
    decreases mhz.len(),
{
    if mhz.len() == 0 || mhz[0] > 0 {
        0
    } else {
        let rest = mhz.drop_first();
        let k = lemma_first_known(rest);
        assert forall|j: int| 0 <= j < k + 1 implies #[trigger] mhz[j] == 0 by {
            if j > 0 {
                assert(rest[j - 1] == 0);
            }
        }
        k + 1
    }
}

/// Where the first name that says something stands.
proof fn lemma_first_brand(brands: Seq<String>) -> (k: int)
    ensures
        0 <= k <= brands.len(),
        forall|j: int| 0 <= j < k ==> trimmed((#[trigger] brands[j])@).len() == 0,
        k < brands.len() ==> trimmed(brands[k]@).len() > 0 && first_brand(brands) == Some(
            trimmed(brands[k]@),
        ),
    decreases brands.len(),
{
    if brands.len() == 0 || trimmed(brands[0]@).len() > 0 {
        0
    } else {
        let rest = brands.drop_first();
        let k = lemma_first_brand(rest);
        assert forall|j: int| 0 <= j < k + 1 implies trimmed((#[trigger] brands[j])@).len()
            == 0 by {
            if j > 0 {
                assert(rest[j - 1] == brands[j]);
            }
        }
        k + 1
    }
}

/// A round carries what was read into the snapshot. A battery that was read is
/// shown, and kept for the rounds that do not read it; where it could not be listed
/// none is shown and the last one is kept. A reading of the graphics processors that
/// failed shows none.
pub proof fn law_snapshot_carries_the_readings(
    s: CollectorState,
    plan: RoundPlan,
    readings: Readings,
    r: SystemSnapshot,
)
    requires
        shows_round(s, plan, readings, r),
    ensures
        r.timestamp == readings.timestamp,
        r.host == readings.host,
        r.load == readings.load,
        r.capabilities == readings.capabilities,
        r.extras@.len() == 0,
        r.total_processes is Some <==> s.config.collect_processes,
        s.config.collect_processes ==> r.total_processes == Some(readings.process_count),
        plan.battery is Off ==> r.battery is None,
        plan.battery is Reuse ==> r.battery == s.battery,
        plan.battery is Refresh && readings.battery is Unreadable ==> r.battery is None,
        plan.battery is Refresh && readings.battery is Read ==> r.battery
            == readings.battery->Read_0,
        ({
            let kept = next_round(s, plan, readings, r).battery;
            if plan.battery is Refresh && readings.battery is Read {
                kept == readings.battery->Read_0
            } else {
                kept == s.battery
            }
        }),
        r.gpus is Some && plan.gpus is Refresh ==> readings.gpus is Some,
        plan.gpus is Refresh && readings.gpus is Some ==> {
            let raws = readings.gpus->0@;
            &&& r.gpus is Some
            &&& r.gpus->0@.len() == raws.len()
            &&& forall|i: int|
                0 <= i < raws.len() ==> {
                    let (g, raw) = (#[trigger] r.gpus->0@[i], raws[i]);
                    &&& g.name == raw.name
                    &&& g.cores == raw.cores
                    &&& g.utilization_percent == raw.utilization_percent
                    &&& g.renderer_utilization_percent == raw.renderer_utilization_percent
                    &&& g.tiler_utilization_percent == raw.tiler_utilization_percent
                    &&& g.memory_in_use_bytes == raw.memory_in_use_bytes
                    &&& g.memory_allocated_bytes == raw.memory_allocated_bytes
                }
        },
        plan.temperatures is Refresh ==> r.temperatures is Some && r.temperatures->0@
            == hottest_first(readings.sensors@),
        plan.temperatures is Off ==> r.temperatures is None,
{
}

} // verus!
