//! Processes and applications as a snapshot shows them.
use std::collections::HashMap;
use vstd::prelude::*;
use vstd::string::*;
use super::bundle::{app_bundle_name, bundle_of};
use super::cpu::{percent_between, percent_of_core, CpuTimeBaseline};
use super::disks::DiskCounters;
use super::groups::{
    aggregate_process_groups, lemma_group_roots_in_table, lemma_node_map, node_map, top_groups,
    GroupTotals, ProcNode,
};
use super::select::{lemma_selected_from, pids_of, select_top_pids, selected, ProcKey};
use crate::rate::{bytes_per_sec, rate_of, rate_per_sec, throughput};
use crate::snapshot::{copy_text, ProcessGroupSnapshot, ProcessSnapshot};
use crate::time::Duration;

verus! {

broadcast use vstd::std_specs::hash::group_hash_axioms;

/// A process as the system reports it.
#[derive(Debug, Clone)]
pub struct RawProcess {
    pub pid: u32,
    pub name: String,
    /// The path of the executable, where the system has application bundles
    pub exe: Option<String>,
    /// The command and its arguments
    pub cmd: Vec<String>,
    pub cpu_time_ms: u64,
    pub start_time_secs: u64,
    pub memory_bytes: u64,
    pub footprint_bytes: Option<u64>,
    pub virtual_memory_bytes: u64,
    pub run_time_secs: u64,
    pub parent_pid: Option<u32>,
    pub user_id: Option<String>,
    pub status: String,
    /// Bytes read and written since the process started
    pub disk: DiskCounters,
    /// Bytes read since the refresh before
    pub read_bytes: u64,
    /// Bytes written since the refresh before
    pub written_bytes: u64,
}

/// The counter of a process.
pub open spec fn baseline_of(raw: RawProcess) -> CpuTimeBaseline {
    CpuTimeBaseline { cpu_time_ms: raw.cpu_time_ms, start_time_secs: raw.start_time_secs }
}

/// The processor use of a process since the refresh before; zero on its first.
pub open spec fn percent_since(
    last: Map<u32, CpuTimeBaseline>,
    raw: RawProcess,
    elapsed: Option<Duration>,
) -> u64 {
    if elapsed is Some && last.contains_key(raw.pid) {
        percent_of_core(last[raw.pid], baseline_of(raw), elapsed->0)
    } else {
        0
    }
}

/// The processor use of every process.
pub open spec fn percents_of(
    last: Map<u32, CpuTimeBaseline>,
    raws: Seq<RawProcess>,
    elapsed: Option<Duration>,
) -> Map<u32, u64>
    decreases raws.len(),
{
    if raws.len() == 0 {
        Map::empty()
    } else {
        percents_of(last, raws.drop_last(), elapsed).insert(
            raws.last().pid,
            percent_since(last, raws.last(), elapsed),
        )
    }
}

/// The counters of every process, and of no other.
pub open spec fn baselines_of(raws: Seq<RawProcess>) -> Map<u32, CpuTimeBaseline>
    decreases raws.len(),
{
    if raws.len() == 0 {
        Map::empty()
    } else {
        baselines_of(raws.drop_last()).insert(raws.last().pid, baseline_of(raws.last()))
    }
}

/// The disk counters of every process, and of no other.
pub open spec fn process_counters_of(raws: Seq<RawProcess>) -> Map<u32, DiskCounters>
    decreases raws.len(),
{
    if raws.len() == 0 {
        Map::empty()
    } else {
        process_counters_of(raws.drop_last()).insert(raws.last().pid, raws.last().disk)
    }
}

/// The processor use of every process, and the counters for the next refresh.
pub fn cpu_percents(
    last: &HashMap<u32, CpuTimeBaseline>,
    raws: &Vec<RawProcess>,
    elapsed: Option<Duration>,
) -> (r: (HashMap<u32, u64>, HashMap<u32, CpuTimeBaseline>))
    ensures
        r.0@ == percents_of(last@, raws@, elapsed),
        r.1@ == baselines_of(raws@),
{
    let mut percents: HashMap<u32, u64> = HashMap::new();
    let mut baselines: HashMap<u32, CpuTimeBaseline> = HashMap::new();
    assert(percents@ =~= Map::empty());
    assert(baselines@ =~= Map::empty());
    for i in 0..raws.len()
        invariant
            percents@ == percents_of(last@, raws@.take(i as int), elapsed),
            baselines@ == baselines_of(raws@.take(i as int)),
    {
        let raw = &raws[i];
        assert(raws@.take(i as int + 1).drop_last() =~= raws@.take(i as int));
        let current = CpuTimeBaseline {
            cpu_time_ms: raw.cpu_time_ms,
            start_time_secs: raw.start_time_secs,
        };
        let percent: u64 = match (elapsed, last.get(&raw.pid)) {
            (Some(elapsed), Some(prev)) => percent_between(prev, &current, elapsed),
            _ => 0,
        };
        percents.insert(raw.pid, percent);
        baselines.insert(raw.pid, current);
    }
    assert(raws@.take(raws.len() as int) =~= raws@);
    (percents, baselines)
}

/// The processor use of a pid; zero where it is unknown.
pub open spec fn percent_for(percents: Map<u32, u64>, pid: u32) -> u64 {
    if percents.contains_key(pid) {
        percents[pid]
    } else {
        0
    }
}

/// The processor use of a pid.
fn find_percent(percents: &HashMap<u32, u64>, pid: u32) -> (r: u64)
    ensures
        r == percent_for(percents@, pid),
{
    match percents.get(&pid) {
        Some(percent) => *percent,
        None => 0,
    }
}

/// What the processes are ranked by.
pub open spec fn keys_of(raws: Seq<RawProcess>, percents: Map<u32, u64>) -> Seq<ProcKey> {
    raws.map_values(
        |raw: RawProcess|
            ProcKey { pid: raw.pid, cpu: percent_for(percents, raw.pid), mem: raw.memory_bytes },
    )
}

/// The place of a pid; their number where it is not there.
pub open spec fn pid_place(raws: Seq<RawProcess>, pid: u32) -> int
    decreases raws.len(),
{
    if raws.len() == 0 || raws[0].pid == pid {
        0
    } else {
        1 + pid_place(raws.drop_first(), pid)
    }
}

/// The process with that pid.
pub open spec fn raw_of(raws: Seq<RawProcess>, pid: u32) -> RawProcess {
    raws[pid_place(raws, pid)]
}

/// A pid that is there has a place.
pub(crate) proof fn lemma_pid_place(raws: Seq<RawProcess>, pid: u32)
    ensures
        0 <= pid_place(raws, pid) <= raws.len(),
        pid_place(raws, pid) < raws.len() ==> raws[pid_place(raws, pid)].pid == pid,
        (exists|i: int| 0 <= i < raws.len() && (#[trigger] raws[i]).pid == pid) ==> pid_place(
            raws,
            pid,
        ) < raws.len(),
    decreases raws.len(),
{
    if raws.len() > 0 && raws[0].pid != pid {
        let rest = raws.drop_first();
        lemma_pid_place(rest, pid);
        if exists|i: int| 0 <= i < raws.len() && (#[trigger] raws[i]).pid == pid {
            let i = choose|i: int| 0 <= i < raws.len() && (#[trigger] raws[i]).pid == pid;
            assert(rest[i - 1].pid == pid);
        }
    }
}

/// The place of a pid.
fn find_pid(raws: &Vec<RawProcess>, pid: u32) -> (r: usize)
    ensures
        r == pid_place(raws@, pid),
        r <= raws@.len(),
{
    let mut k: usize = 0;
    assert(raws@.skip(0) =~= raws@);
    while k < raws.len() && raws[k].pid != pid
        invariant
            k <= raws@.len(),
            pid_place(raws@, pid) == k + pid_place(raws@.skip(k as int), pid),
        decreases raws@.len() - k,
    {
        assert(raws@.skip(k as int).drop_first() =~= raws@.skip(k as int + 1));
        k += 1;
    }
    k
}

/// The words with a space between each two.
pub open spec fn spaced(words: Seq<String>) -> Seq<char>
    decreases words.len(),
{
    if words.len() == 0 {
        Seq::empty()
    } else if words.len() == 1 {
        words[0]@
    } else {
        spaced(words.drop_last()) + " "@ + words.last()@
    }
}

/// Joins words with spaces.
fn join_words(words: &Vec<String>) -> (r: String)
    ensures
        r@ == spaced(words@),
{
    if words.len() == 0 {
        return String::new();
    }
    let mut r = words[0].clone();
    assert(words@.take(1).len() == 1);
    for i in 1..words.len()
        invariant
            words@.len() >= 1,
            r@ == spaced(words@.take(i as int)),
    {
        assert(words@.take(i as int + 1).drop_last() =~= words@.take(i as int));
        r.append(" ");
        r.append(words[i].as_str());
    }
    assert(words@.take(words.len() as int) =~= words@);
    r
}

/// The name of the application that a process belongs to, where its own name
/// does not say it.
pub open spec fn display_name_of(raw: RawProcess) -> Option<Seq<char>> {
    match raw.exe {
        Some(exe) => bundle_of(exe@, raw.name@),
        None => None,
    }
}

/// The characters of an optional text.
pub open spec fn text_view(text: Option<String>) -> Option<Seq<char>> {
    match text {
        Some(t) => Some(t@),
        None => None,
    }
}

fn display_name(raw: &RawProcess) -> (r: Option<String>)
    ensures
        text_view(r) == display_name_of(*raw),
{
    match &raw.exe {
        Some(exe) => app_bundle_name(exe.as_str(), raw.name.as_str()),
        None => None,
    }
}

/// The disk rates of a process since the refresh before; none where they are not
/// collected, and none on its first.
pub open spec fn process_rates(
    collect: bool,
    last: Map<u32, DiskCounters>,
    raw: RawProcess,
    elapsed: Option<Duration>,
) -> (Option<u64>, Option<u64>) {
    if collect && elapsed is Some && last.contains_key(raw.pid) {
        let prev = last[raw.pid];
        (
            Some(rate_of(prev.total_read_bytes, raw.disk.total_read_bytes, elapsed->0)),
            Some(rate_of(prev.total_written_bytes, raw.disk.total_written_bytes, elapsed->0)),
        )
    } else {
        (None, None)
    }
}

/// Whether `p` shows the process.
pub open spec fn shows(
    p: ProcessSnapshot,
    raw: RawProcess,
    cpu: u64,
    rates: (Option<u64>, Option<u64>),
) -> bool {
    &&& p.pid == raw.pid
    &&& p.name == raw.name
    &&& text_view(p.display_name) == display_name_of(raw)
    &&& p.cmd@ == spaced(raw.cmd@)
    &&& p.cpu_usage_percent == cpu
    &&& p.cpu_time_ms == raw.cpu_time_ms
    &&& p.memory_bytes == raw.memory_bytes
    &&& p.phys_footprint_bytes == raw.footprint_bytes
    &&& p.virtual_memory_bytes == raw.virtual_memory_bytes
    &&& p.run_time_secs == raw.run_time_secs
    &&& p.parent_pid == raw.parent_pid
    &&& p.user_id == raw.user_id
    &&& p.status == raw.status
    &&& p.read_bytes_per_sec == rates.0
    &&& p.write_bytes_per_sec == rates.1
}

/// Whether the list shows the processes that are kept, by processor use.
pub open spec fn shows_selection(
    list: Seq<ProcessSnapshot>,
    raws: Seq<RawProcess>,
    percents: Map<u32, u64>,
    max: nat,
    collect_io: bool,
    last: Map<u32, DiskCounters>,
    elapsed: Option<Duration>,
) -> bool {
    let kept = selected(keys_of(raws, percents), max);
    &&& list.len() == kept.len()
    &&& forall|i: int|
        0 <= i < list.len() ==> shows(
            #[trigger] list[i],
            raw_of(raws, kept[i].pid),
            percent_for(percents, kept[i].pid),
            process_rates(collect_io, last, raw_of(raws, kept[i].pid), elapsed),
        )
}

/// Shows one process.
fn show(raw: &RawProcess, cpu: u64, rates: (Option<u64>, Option<u64>)) -> (p: ProcessSnapshot)
    ensures
        shows(p, *raw, cpu, rates),
{
    ProcessSnapshot {
        pid: raw.pid,
        name: raw.name.clone(),
        display_name: display_name(raw),
        cmd: join_words(&raw.cmd),
        cpu_usage_percent: cpu,
        cpu_time_ms: raw.cpu_time_ms,
        memory_bytes: raw.memory_bytes,
        phys_footprint_bytes: raw.footprint_bytes,
        virtual_memory_bytes: raw.virtual_memory_bytes,
        run_time_secs: raw.run_time_secs,
        parent_pid: raw.parent_pid,
        user_id: copy_text(&raw.user_id),
        status: raw.status.clone(),
        read_bytes_per_sec: rates.0,
        write_bytes_per_sec: rates.1,
    }
}

/// The processes that are kept, by processor use.
pub fn build_processes(
    raws: &Vec<RawProcess>,
    percents: &HashMap<u32, u64>,
    max: usize,
    collect_io: bool,
    last: &HashMap<u32, DiskCounters>,
    elapsed: Option<Duration>,
) -> (r: Vec<ProcessSnapshot>)
    ensures
        shows_selection(r@, raws@, percents@, max as nat, collect_io, last@, elapsed),
{
    let mut keys: Vec<ProcKey> = Vec::new();
    for i in 0..raws.len()
        invariant
            keys@ =~= keys_of(raws@, percents@).take(i as int),
    {
        let raw = &raws[i];
        keys.push(
            ProcKey { pid: raw.pid, cpu: find_percent(percents, raw.pid), mem: raw.memory_bytes },
        );
    }
    assert(keys@ =~= keys_of(raws@, percents@));
    let ghost kept = selected(keys@, max as nat);
    proof {
        lemma_selected_from(keys@, max as nat);
    }
    let pids = select_top_pids(keys, max);
    let mut list: Vec<ProcessSnapshot> = Vec::new();
    for i in 0..pids.len()
        invariant
            pids@ == pids_of(kept),
            kept == selected(keys_of(raws@, percents@), max as nat),
            forall|k: ProcKey| #[trigger]
                kept.contains(k) ==> keys_of(raws@, percents@).contains(k),
            list@.len() == i,
            forall|j: int|
                0 <= j < list@.len() ==> shows(
                    #[trigger] list@[j],
                    raw_of(raws@, kept[j].pid),
                    percent_for(percents@, kept[j].pid),
                    process_rates(collect_io, last@, raw_of(raws@, kept[j].pid), elapsed),
                ),
    {
        let pid: u32 = pids[i];
        let place: usize = find_pid(raws, pid);
        proof {
            let k = kept[i as int];
            assert(kept.contains(k));
            let keys = keys_of(raws@, percents@);
            let j = choose|j: int| 0 <= j < keys.len() && keys[j] == k;
            assert(raws@[j].pid == pid);
            lemma_pid_place(raws@, pid);
        }
        let raw = &raws[place];
        let mut rates: (Option<u64>, Option<u64>) = (None, None);
        if collect_io {
            if let (Some(elapsed), Some(prev)) = (elapsed, last.get(&pid)) {
                rates = (
                    Some(rate_per_sec(prev.total_read_bytes, raw.disk.total_read_bytes, elapsed)),
                    Some(
                        rate_per_sec(
                            prev.total_written_bytes,
                            raw.disk.total_written_bytes,
                            elapsed,
                        ),
                    ),
                );
            }
        }
        list.push(show(raw, find_percent(percents, pid), rates));
    }
    list
}

/// The processes for adding up trees.
pub open spec fn nodes_of(raws: Seq<RawProcess>, percents: Map<u32, u64>, collect_io: bool) -> Seq<
    (u32, ProcNode),
> {
    raws.map_values(
        |raw: RawProcess|
            (
                raw.pid,
                ProcNode {
                    parent: raw.parent_pid,
                    start_time_secs: raw.start_time_secs,
                    cpu: percent_for(percents, raw.pid),
                    mem: raw.memory_bytes,
                    footprint: raw.footprint_bytes,
                    io: if collect_io {
                        Some((raw.read_bytes, raw.written_bytes))
                    } else {
                        None
                    },
                },
            ),
    )
}

/// Whether `s` shows the tree.
pub open spec fn shows_group(
    s: ProcessGroupSnapshot,
    root: RawProcess,
    g: GroupTotals,
    elapsed: Option<Duration>,
) -> bool {
    &&& s.root_pid == g.root_pid
    &&& s.name == root.name
    &&& text_view(s.display_name) == display_name_of(root)
    &&& s.process_count == g.process_count
    &&& s.cpu_usage_percent == g.cpu
    &&& s.memory_bytes == g.mem
    &&& s.phys_footprint_bytes == if g.any_footprint {
        Some(g.footprint_sum)
    } else {
        None
    }
    &&& s.read_bytes_per_sec == throughput(g.read_bytes, elapsed)
    &&& s.write_bytes_per_sec == throughput(g.written_bytes, elapsed)
}

/// Whether the list shows the busiest trees.
pub open spec fn shows_groups(
    list: Seq<ProcessGroupSnapshot>,
    raws: Seq<RawProcess>,
    percents: Map<u32, u64>,
    max: nat,
    collect_io: bool,
    elapsed: Option<Duration>,
) -> bool {
    let groups = top_groups(nodes_of(raws, percents, collect_io), max);
    &&& list.len() == groups.len()
    &&& forall|i: int|
        0 <= i < list.len() ==> shows_group(
            #[trigger] list[i],
            raw_of(raws, groups[i].root_pid),
            groups[i],
            elapsed,
        )
}

/// The busiest trees, with the name of each root.
pub fn build_groups(
    raws: &Vec<RawProcess>,
    percents: &HashMap<u32, u64>,
    max: usize,
    collect_io: bool,
    elapsed: Option<Duration>,
) -> (r: Vec<ProcessGroupSnapshot>)
    requires
        raws@.len() <= u32::MAX,
    ensures
        shows_groups(r@, raws@, percents@, max as nat, collect_io, elapsed),
{
    let mut table: Vec<(u32, ProcNode)> = Vec::new();
    for i in 0..raws.len()
        invariant
            table@ =~= nodes_of(raws@, percents@, collect_io).take(i as int),
    {
        let raw = &raws[i];
        let io: Option<(u64, u64)> = if collect_io {
            Some((raw.read_bytes, raw.written_bytes))
        } else {
            None
        };
        table.push(
            (
                raw.pid,
                ProcNode {
                    parent: raw.parent_pid,
                    start_time_secs: raw.start_time_secs,
                    cpu: find_percent(percents, raw.pid),
                    mem: raw.memory_bytes,
                    footprint: raw.footprint_bytes,
                    io,
                },
            ),
        );
    }
    assert(table@ =~= nodes_of(raws@, percents@, collect_io));
    let groups = aggregate_process_groups(&table, max);
    proof {
        lemma_group_roots_in_table(table@, max as nat);
    }
    let mut list: Vec<ProcessGroupSnapshot> = Vec::new();
    for i in 0..groups.len()
        invariant
            table@ == nodes_of(raws@, percents@, collect_io),
            groups@ == top_groups(table@, max as nat),
            forall|g: GroupTotals| #[trigger]
                groups@.contains(g) ==> node_map(table@).contains_key(g.root_pid),
            list@.len() == i,
            forall|j: int|
                0 <= j < list@.len() ==> shows_group(
                    #[trigger] list@[j],
                    raw_of(raws@, groups@[j].root_pid),
                    groups@[j],
                    elapsed,
                ),
    {
        let g = groups[i];
        let place: usize = find_pid(raws, g.root_pid);
        proof {
            assert(groups@.contains(groups@[i as int]));
            lemma_node_map(table@, g.root_pid);
            let j = choose|j: int| 0 <= j < table@.len() && (#[trigger] table@[j]).0 == g.root_pid;
            assert(raws@[j].pid == g.root_pid);
            lemma_pid_place(raws@, g.root_pid);
        }
        let root = &raws[place];
        list.push(
            ProcessGroupSnapshot {
                root_pid: g.root_pid,
                name: root.name.clone(),
                display_name: display_name(root),
                process_count: g.process_count,
                cpu_usage_percent: g.cpu,
                memory_bytes: g.mem,
                phys_footprint_bytes: if g.any_footprint {
                    Some(g.footprint_sum)
                } else {
                    None
                },
                read_bytes_per_sec: bytes_per_sec(g.read_bytes, elapsed),
                write_bytes_per_sec: bytes_per_sec(g.written_bytes, elapsed),
            },
        );
    }
    list
}

} // verus!
