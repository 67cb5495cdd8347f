//! The rule engine: snapshots go in, alerts and records come out.
use std::collections::HashMap;
use vstd::prelude::*;
use vstd::string::*;
use super::active::ActiveThresholds;
use super::consumers::{consumers_of, top_consumers};
use super::episode::{
    cleared, decision, elapsed_of, notified, retained, EpisodeState, Episodes, Key,
};
use super::event::{AlertDetail, AlertEvent, AlertKind, AlertSubject};
use super::memory::{
    bar_of, base_bar, describe, find_bar, memory_detail, reached, reaches, share, share_of, Bar,
    WHOLE,
};
use super::names::{mounted, Names};
use super::thresholds::Thresholds;
use crate::records::MetricRecord;
use crate::rolling::{
    all_stats, bounded, history_after, observations, Observation, ProcessStats, ProcessWindows,
    Sample,
};
use crate::snapshot::{
    copy_text, DiskSnapshot, ProcessGroupSnapshot, ProcessSnapshot, SystemSnapshot,
};
use crate::time::{nanos_since, Duration, Instant};

verus! {

broadcast use vstd::std_specs::hash::group_hash_axioms;

/// The fast window, in nanoseconds: one minute.
pub const WINDOW_NANOS: u128 = 60_000_000_000;

/// The fast window counts once it is this full.
pub const MIN_SPAN_NANOS: u128 = 50_000_000_000;

/// The slow window: five minutes.
pub const SLOW_WINDOW_NANOS: u128 = 300_000_000_000;

/// The slow window counts once it is this full.
pub const SLOW_MIN_SPAN_NANOS: u128 = 250_000_000_000;

/// A runaway is at this multiple of its threshold.
pub const ACUTE_FACTOR: u128 = 3;

/// Time between two rounds of recording.
pub const RECORD_EVERY_NANOS: u128 = 60_000_000_000;

/// How many of the largest spenders of processor time are recorded.
pub const RECORD_TOP_CPU_TIME: usize = 5;

/// A volume alerts again once it has fallen this far below its threshold, in
/// millionths of a percent.
pub const DISK_REARM_MARGIN: u64 = 5_000_000;

/// The wait for the first reminder of memory pressure, in nanoseconds: half an
/// hour.
pub const FIRST_REMINDER_NANOS: u128 = 1_800_000_000_000;

/// Bytes in use on a volume.
pub open spec fn used_bytes(d: DiskSnapshot) -> nat {
    if d.total_bytes >= d.available_bytes {
        (d.total_bytes - d.available_bytes) as nat
    } else {
        0
    }
}

/// Whether a volume is at least `percent` full.
pub open spec fn fills(d: DiskSnapshot, percent: int) -> bool {
    used_bytes(d) * WHOLE >= percent * d.total_bytes
}

/// The alert on a full volume.
pub open spec fn disk_event(d: DiskSnapshot, percent: u64) -> AlertEvent {
    AlertEvent {
        subject: AlertSubject::Volume { mount_point: d.mount_point },
        detail: AlertDetail::Disk {
            used_percent: (used_bytes(d) * WHOLE / d.total_bytes as int) as u128,
            threshold_percent: percent as u128,
            available_bytes: d.available_bytes,
            total_bytes: d.total_bytes,
        },
        repeat_after: None,
    }
}

/// The volumes that have alerted and not yet fallen, and the alerts so far.
pub type DiskProgress = (Set<Seq<char>>, Seq<AlertEvent>);

/// One volume: it alerts when it reaches its threshold and then stays silent
/// until it falls by the margin.
pub open spec fn disk_step(
    s: DiskProgress,
    rule: &Thresholds<u64>,
    d: DiskSnapshot,
) -> DiskProgress {
    match rule.threshold(d.mount_point@) {
        None => s,
        Some(percent) => if d.total_bytes == 0 {
            s
        } else if s.0.contains(d.mount_point@) {
            if !fills(d, percent - DISK_REARM_MARGIN) {
                (s.0.remove(d.mount_point@), s.1)
            } else {
                s
            }
        } else if fills(d, percent as int) {
            (s.0.insert(d.mount_point@), s.1.push(disk_event(d, percent)))
        } else {
            s
        },
    }
}

/// The volumes one after another.
pub open spec fn disk_run(
    s: DiskProgress,
    rule: &Thresholds<u64>,
    disks: Seq<DiskSnapshot>,
) -> DiskProgress
    decreases disks.len(),
{
    if disks.len() == 0 {
        s
    } else {
        disk_step(disk_run(s, rule, disks.drop_last()), rule, disks.last())
    }
}

/// The volume rule on one snapshot. A volume that is gone is forgotten.
pub open spec fn disk_rule(
    disarmed: Set<Seq<char>>,
    rule: &Thresholds<u64>,
    disks: Option<Vec<DiskSnapshot>>,
) -> DiskProgress {
    match disks {
        None => (disarmed, Seq::empty()),
        Some(disks) => disk_run(
            (disarmed.filter(|m: Seq<char>| mounted(disks@, m)), Seq::empty()),
            rule,
            disks@,
        ),
    }
}

/// Judges one volume.
fn judge_disk(
    disarmed: &mut Names,
    events: &mut Vec<AlertEvent>,
    rule: &Thresholds<u64>,
    d: &DiskSnapshot,
)
    ensures
        (final(disarmed)@, final(events)@) == disk_step((old(disarmed)@, old(events)@), rule, *d),
{
    let percent: u64 = match rule.for_process(d.mount_point.as_str()) {
        None => {
            return;
        },
        Some(percent) => percent,
    };
    if d.total_bytes == 0 {
        return;
    }
    let total: u128 = d.total_bytes as u128;
    let used: u128 = d.total_bytes.saturating_sub(d.available_bytes) as u128 * WHOLE;
    assert(percent * d.total_bytes <= u64::MAX * u64::MAX) by (nonlinear_arith)
        requires
            percent <= u64::MAX,
            d.total_bytes <= u64::MAX,
    ;
    if disarmed.contains(d.mount_point.as_str()) {
        let fallen: bool = if percent >= DISK_REARM_MARGIN {
            assert((percent - DISK_REARM_MARGIN) * d.total_bytes <= u64::MAX * u64::MAX)
                by (nonlinear_arith)
                requires
                    0 <= percent - DISK_REARM_MARGIN <= u64::MAX,
                    d.total_bytes <= u64::MAX,
            ;
            used < (percent - DISK_REARM_MARGIN) as u128 * total
        } else {
            assert((percent - DISK_REARM_MARGIN) * d.total_bytes <= 0) by (nonlinear_arith)
                requires
                    percent - DISK_REARM_MARGIN <= 0,
                    d.total_bytes >= 0,
            ;
            false
        };
        if fallen {
            disarmed.remove(d.mount_point.as_str());
        }
    } else if used >= percent as u128 * total {
        disarmed.insert(d.mount_point.as_str());
        events.push(
            AlertEvent {
                subject: AlertSubject::Volume { mount_point: d.mount_point.clone() },
                detail: AlertDetail::Disk {
                    used_percent: used / total,
                    threshold_percent: percent as u128,
                    available_bytes: d.available_bytes,
                    total_bytes: d.total_bytes,
                },
                repeat_after: None,
            },
        );
    }
}

/// Judges the volumes of a snapshot.
fn judge_disks(
    disarmed: &mut Names,
    events: &mut Vec<AlertEvent>,
    rule: &Thresholds<u64>,
    disks: &Option<Vec<DiskSnapshot>>,
)
    requires
        old(events)@.len() == 0,
    ensures
        (final(disarmed)@, final(events)@) == disk_rule(old(disarmed)@, rule, *disks),
{
    if let Some(disks) = disks {
        disarmed.retain_mounted(disks);
        let ghost start = (disarmed@, events@);
        assert(events@ =~= Seq::empty());
        for i in 0..disks.len()
            invariant
                (disarmed@, events@) == disk_run(start, rule, disks@.take(i as int)),
        {
            assert(disks@.take(i as int + 1).drop_last() =~= disks@.take(i as int));
            judge_disk(disarmed, events, rule, &disks[i]);
        }
        assert(disks@.take(disks.len() as int) =~= disks@);
    } else {
        assert(events@ =~= Seq::empty());
    }
}

/// What was said of one span of memory pressure.
#[derive(Debug, Clone, Copy, PartialEq, Eq, Structural)]
pub struct Told {
    /// The first alert
    pub first: Instant,
    /// The last alert or reminder
    pub last: Instant,
    /// How many reminders there were, counted up to three
    pub reminders: u32,
}

/// A span of memory pressure.
#[derive(Debug, Clone, Copy, PartialEq, Eq, Structural)]
pub struct Pressure {
    /// When it began
    pub since: Option<Instant>,
    /// The highest level that has alerted
    pub alerted: u32,
    pub told: Option<Told>,
}

/// No pressure.
pub open spec fn no_pressure() -> Pressure {
    Pressure { since: None, alerted: 0, told: None }
}

/// The memory pressure after a snapshot, and the alert now due.
pub ghost struct PressureStep {
    pub state: Pressure,
    pub event: Option<AlertEvent>,
}

/// How long to wait for the next reminder: half an hour, an hour, two hours, and
/// four hours from then on.
pub open spec fn reminder_wait(reminders: u32) -> u128 {
    if reminders == 0 {
        FIRST_REMINDER_NANOS
    } else if reminders == 1 {
        (2 * FIRST_REMINDER_NANOS) as u128
    } else if reminders == 2 {
        (4 * FIRST_REMINDER_NANOS) as u128
    } else {
        (8 * FIRST_REMINDER_NANOS) as u128
    }
}

fn next_wait(reminders: u32) -> (r: u128)
    ensures
        r == reminder_wait(reminders),
{
    if reminders == 0 {
        FIRST_REMINDER_NANOS
    } else if reminders == 1 {
        2 * FIRST_REMINDER_NANOS
    } else if reminders == 2 {
        4 * FIRST_REMINDER_NANOS
    } else {
        8 * FIRST_REMINDER_NANOS
    }
}

/// The alert on memory pressure.
pub open spec fn pressure_event(
    level: u32,
    elapsed: nat,
    snapshot: SystemSnapshot,
    repeat_after: Option<Duration>,
) -> AlertEvent {
    AlertEvent {
        subject: AlertSubject::System,
        detail: AlertDetail::Pressure {
            level,
            sustained: Duration { nanos: elapsed as u128 },
            swap_used_bytes: snapshot.memory.swap_used_bytes,
            swap_total_bytes: snapshot.memory.swap_total_bytes,
            compressed_bytes: snapshot.memory.compressed_bytes,
            top_consumers: consumers_of(snapshot),
        },
        repeat_after,
    }
}

fn make_pressure_event(
    level: u32,
    elapsed: Duration,
    snapshot: &SystemSnapshot,
    repeat_after: Option<Duration>,
) -> (r: AlertEvent)
    ensures
        r == pressure_event(level, elapsed.nanos as nat, *snapshot, repeat_after),
{
    AlertEvent {
        subject: AlertSubject::System,
        detail: AlertDetail::Pressure {
            level,
            sustained: elapsed,
            swap_used_bytes: snapshot.memory.swap_used_bytes,
            swap_total_bytes: snapshot.memory.swap_total_bytes,
            compressed_bytes: snapshot.memory.compressed_bytes,
            top_consumers: top_consumers(snapshot),
        },
        repeat_after,
    }
}

/// How long a level must last before it alerts.
pub open spec fn pressure_patience(level: u32) -> u128 {
    if level >= 4 {
        WINDOW_NANOS
    } else {
        SLOW_WINDOW_NANOS
    }
}

/// The memory-pressure rule on one snapshot. A level that lasts alerts once. While
/// the pressure lasts after that, reminders follow at growing distances; they tell
/// the time since the first alert. A normal level ends the span.
pub open spec fn pressure_rule(
    s: Pressure,
    now: Instant,
    threshold: Option<u32>,
    snapshot: SystemSnapshot,
) -> PressureStep {
    if threshold is None || snapshot.memory.pressure_level is None {
        PressureStep { state: s, event: None }
    } else if snapshot.memory.pressure_level->0 <= 1 {
        PressureStep { state: no_pressure(), event: None }
    } else {
        let level = snapshot.memory.pressure_level->0;
        let start = if s.since is Some {
            s.since->0
        } else {
            now
        };
        let elapsed = nanos_since(now, start);
        if level >= threshold->0 && level > s.alerted && elapsed >= pressure_patience(level) {
            PressureStep {
                state: Pressure {
                    since: Some(start),
                    alerted: level,
                    told: Some(
                        match s.told {
                            Some(told) => Told { last: now, ..told },
                            None => Told { first: now, last: now, reminders: 0 },
                        },
                    ),
                },
                event: Some(pressure_event(level, elapsed, snapshot, None)),
            }
        } else if level >= threshold->0 && s.told is Some && nanos_since(now, s.told->0.last)
            >= reminder_wait(s.told->0.reminders) {
            let told = s.told->0;
            PressureStep {
                state: Pressure {
                    since: Some(start),
                    alerted: s.alerted,
                    told: Some(
                        Told {
                            last: now,
                            reminders: if told.reminders < 3 {
                                (told.reminders + 1) as u32
                            } else {
                                told.reminders
                            },
                            ..told
                        },
                    ),
                },
                event: Some(
                    pressure_event(
                        level,
                        elapsed,
                        snapshot,
                        Some(Duration { nanos: nanos_since(now, told.first) as u128 }),
                    ),
                ),
            }
        } else {
            PressureStep { state: Pressure { since: Some(start), ..s }, event: None }
        }
    }
}

/// The alerts, with the one that a step raised.
pub open spec fn with_event(events: Seq<AlertEvent>, event: Option<AlertEvent>) -> Seq<AlertEvent> {
    match event {
        Some(e) => events.push(e),
        None => events,
    }
}

/// Judges memory pressure.
fn judge_pressure(
    pressure: &mut Pressure,
    events: &mut Vec<AlertEvent>,
    now: Instant,
    threshold: Option<u32>,
    snapshot: &SystemSnapshot,
)
    ensures
        ({
            let step = pressure_rule(*old(pressure), now, threshold, *snapshot);
            &&& *final(pressure) == step.state
            &&& final(events)@ == with_event(old(events)@, step.event)
        }),
{
    let (threshold, level) = match (threshold, snapshot.memory.pressure_level) {
        (Some(threshold), Some(level)) => (threshold, level),
        _ => {
            return;
        },
    };
    if level <= 1 {
        *pressure = Pressure { since: None, alerted: 0, told: None };
        return;
    }
    let s = *pressure;
    let start = match s.since {
        Some(start) => start,
        None => now,
    };
    let elapsed = now.duration_since(start);
    let required: u128 = if level >= 4 {
        WINDOW_NANOS
    } else {
        SLOW_WINDOW_NANOS
    };
    if level >= threshold && level > s.alerted && elapsed.nanos >= required {
        let told = match s.told {
            Some(told) => Told { first: told.first, last: now, reminders: told.reminders },
            None => Told { first: now, last: now, reminders: 0 },
        };
        *pressure = Pressure { since: Some(start), alerted: level, told: Some(told) };
        events.push(make_pressure_event(level, elapsed, snapshot, None));
        return;
    }
    if level >= threshold {
        if let Some(told) = s.told {
            if now.duration_since(told.last).nanos >= next_wait(told.reminders) {
                let reminders: u32 = if told.reminders < 3 {
                    told.reminders + 1
                } else {
                    told.reminders
                };
                let again = Told { first: told.first, last: now, reminders };
                *pressure = Pressure { since: Some(start), alerted: s.alerted, told: Some(again) };
                let after = Some(now.duration_since(told.first));
                events.push(make_pressure_event(level, elapsed, snapshot, after));
                return;
            }
        }
    }
    *pressure = Pressure { since: Some(start), alerted: s.alerted, told: s.told };
}

/// The alerted conditions, the alerts and the records so far.
pub ghost struct Progress {
    pub episodes: Episodes,
    pub events: Seq<AlertEvent>,
    pub records: Seq<MetricRecord>,
}

/// One condition: where it holds it alerts when that is due, where it does not
/// its episode ends.
pub open spec fn judged(
    p: Progress,
    holds: bool,
    key: Key,
    now: Instant,
    cooldown: Duration,
    subject: AlertSubject,
    detail: AlertDetail,
) -> Progress {
    if !holds {
        Progress { episodes: cleared(p.episodes, key), ..p }
    } else {
        match decision(p.episodes, key, now, cooldown) {
            None => p,
            Some(notify) => Progress {
                episodes: notified(p.episodes, key, now, cooldown),
                events: p.events.push(
                    AlertEvent { subject, detail, repeat_after: elapsed_of(notify) },
                ),
                ..p
            },
        }
    }
}

/// Judges one condition.
fn judge(
    episodes: &mut EpisodeState,
    events: &mut Vec<AlertEvent>,
    holds: bool,
    key: Key,
    now: Instant,
    cooldown: Duration,
    subject: AlertSubject,
    detail: AlertDetail,
)
    ensures
        forall|p: Progress|
            p.episodes == old(episodes)@ && p.events == old(events)@ ==> ({
                let q = #[trigger] judged(p, holds, key, now, cooldown, subject, detail);
                final(episodes)@ == q.episodes && final(events)@ == q.events
            }),
{
    if !holds {
        episodes.clear(key);
    } else {
        match episodes.notify(key, now, cooldown) {
            None => {},
            Some(notify) => {
                events.push(AlertEvent { subject, detail, repeat_after: notify.elapsed() });
            },
        }
    }
}

/// What the rules on processes and applications look at in one round.
pub ghost struct Round {
    pub now: Instant,
    pub total_memory: u64,
    pub timestamp: i128,
    pub active: ActiveThresholds,
    /// Averages over the fast window
    pub fast: Map<u32, ProcessStats>,
    /// Averages over the slow window
    pub slow: Map<u32, ProcessStats>,
    /// Whether this round records
    pub record_due: bool,
}

/// A span of time.
pub open spec fn span(nanos: u128) -> Duration {
    Duration { nanos }
}

/// What is seen of an application.
pub open spec fn group_observation(g: ProcessGroupSnapshot) -> Observation {
    Observation {
        pid: g.root_pid,
        cpu: g.cpu_usage_percent,
        memory_bytes: g.memory_bytes,
        footprint_bytes: g.phys_footprint_bytes,
        cpu_time_ms: 0,
    }
}

/// What is seen of the applications.
pub open spec fn group_observations(groups: Seq<ProcessGroupSnapshot>) -> Seq<Observation> {
    groups.map_values(|g: ProcessGroupSnapshot| group_observation(g))
}

/// The application as an alert names it.
pub open spec fn app_subject(g: ProcessGroupSnapshot) -> AlertSubject {
    AlertSubject::App {
        root_pid: g.root_pid,
        name: g.name,
        display_name: g.display_name,
        process_count: g.process_count,
    }
}

/// The processor rule on one application, over the slow window.
pub open spec fn app_cpu_rule(p: Progress, r: Round, g: ProcessGroupSnapshot) -> Progress {
    let stat = r.slow[g.root_pid];
    match r.active.app_cpu.threshold(g.name@) {
        None => p,
        Some(percent) => judged(
            p,
            stat.cpu_avg >= percent,
            (g.root_pid, AlertKind::AppCpu),
            r.now,
            r.active.cooldown,
            app_subject(g),
            AlertDetail::Cpu {
                avg_percent: stat.cpu_avg as u128,
                threshold_percent: percent as u128,
                window: span(SLOW_WINDOW_NANOS),
                runaway: false,
            },
        ),
    }
}

/// The memory rule on one application, over the slow window.
pub open spec fn app_memory_rule(p: Progress, r: Round, g: ProcessGroupSnapshot) -> Progress {
    let stat = r.slow[g.root_pid];
    match bar_of(&r.active.app_memory, r.active.app_memory_ceiling, g.name@) {
        None => p,
        Some(bar) => if r.total_memory == 0 {
            p
        } else {
            judged(
                p,
                reached(stat, r.total_memory, bar),
                (g.root_pid, AlertKind::AppMemory),
                r.now,
                r.active.cooldown,
                app_subject(g),
                memory_detail(stat, r.total_memory, bar, span(SLOW_WINDOW_NANOS)),
            )
        },
    }
}

/// The rules on one application: none before the slow window is full enough.
pub open spec fn app_step(p: Progress, r: Round, g: ProcessGroupSnapshot) -> Progress {
    if r.slow[g.root_pid].span.nanos < SLOW_MIN_SPAN_NANOS {
        p
    } else {
        app_memory_rule(app_cpu_rule(p, r, g), r, g)
    }
}

/// The applications one after another.
pub open spec fn app_run(p: Progress, r: Round, groups: Seq<ProcessGroupSnapshot>) -> Progress
    decreases groups.len(),
{
    if groups.len() == 0 {
        p
    } else {
        app_step(app_run(p, r, groups.drop_last()), r, groups.last())
    }
}

/// Judges one application.
fn judge_app(
    episodes: &mut EpisodeState,
    events: &mut Vec<AlertEvent>,
    now: Instant,
    total_memory: u64,
    active: &ActiveThresholds,
    stat: &ProcessStats,
    g: &ProcessGroupSnapshot,
)
    requires
        bounded(*stat),
    ensures
        forall|p: Progress, r: Round|
            p.episodes == old(episodes)@ && p.events == old(events)@ && r.now == now
                && r.total_memory == total_memory && r.active == *active && r.slow[g.root_pid]
                == *stat ==> ({
                let q = #[trigger] app_step(p, r, *g);
                final(episodes)@ == q.episodes && final(events)@ == q.events
            }),
{
    if stat.span.nanos < SLOW_MIN_SPAN_NANOS {
        return;
    }
    let window = Duration { nanos: SLOW_WINDOW_NANOS };
    if let Some(percent) = active.app_cpu.for_process(g.name.as_str()) {
        let subject = AlertSubject::App {
            root_pid: g.root_pid,
            name: g.name.clone(),
            display_name: copy_text(&g.display_name),
            process_count: g.process_count,
        };
        let detail = AlertDetail::Cpu {
            avg_percent: stat.cpu_avg as u128,
            threshold_percent: percent as u128,
            window,
            runaway: false,
        };
        judge(
            episodes,
            events,
            stat.cpu_avg >= percent,
            (g.root_pid, AlertKind::AppCpu),
            now,
            active.cooldown,
            subject,
            detail,
        );
    }
    if let Some(bar) = find_bar(&active.app_memory, active.app_memory_ceiling, g.name.as_str()) {
        if total_memory > 0 {
            let subject = AlertSubject::App {
                root_pid: g.root_pid,
                name: g.name.clone(),
                display_name: copy_text(&g.display_name),
                process_count: g.process_count,
            };
            judge(
                episodes,
                events,
                reaches(stat, total_memory, bar),
                (g.root_pid, AlertKind::AppMemory),
                now,
                active.cooldown,
                subject,
                describe(stat, total_memory, bar, window),
            );
        }
    }
}

/// Whether a process has spent processor time over a window that is full
/// enough.
pub open spec fn spends(stats: Map<u32, ProcessStats>, pid: u32) -> bool {
    &&& stats.contains_key(pid)
    &&& stats[pid].span.nanos >= MIN_SPAN_NANOS
    &&& stats[pid].cpu_time_delta_ms > 0
}

/// Whether `q` has spent more than `pid`, or as much with a lower pid.
pub open spec fn outspends(stats: Map<u32, ProcessStats>, q: u32, pid: u32) -> bool {
    &&& spends(stats, q)
    &&& stats[q].cpu_time_delta_ms > stats[pid].cpu_time_delta_ms || (stats[q].cpu_time_delta_ms
        == stats[pid].cpu_time_delta_ms && q < pid)
}

/// Whether a process is among the largest spenders of processor time.
pub open spec fn top_spender(stats: Map<u32, ProcessStats>, pid: u32) -> bool {
    &&& spends(stats, pid)
    &&& Set::new(|q: u32| outspends(stats, q, pid)).len() < RECORD_TOP_CPU_TIME
}

/// The pids of the processes, each once.
fn distinct_pids(processes: &Vec<ProcessSnapshot>) -> (r: Vec<u32>)
    ensures
        r@.no_duplicates(),
        forall|pid: u32| #[trigger]
            r@.contains(pid) <==> crate::rolling::seen_pid(observations(processes@), pid),
{
    let mut r: Vec<u32> = Vec::new();
    for i in 0..processes.len()
        invariant
            r@.no_duplicates(),
            forall|pid: u32| #[trigger]
                r@.contains(pid) <==> exists|j: int|
                    0 <= j < i && (#[trigger] processes@[j]).pid == pid,
    {
        let pid: u32 = processes[i].pid;
        let mut found: bool = false;
        for k in 0..r.len()
            invariant
                found == exists|j: int| 0 <= j < k && (#[trigger] r@[j]) == pid,
        {
            if r[k] == pid {
                found = true;
            }
        }
        let ghost was = r@;
        if !found {
            assert(!r@.contains(pid));
            r.push(pid);
        }
        proof {
            assert forall|q: u32| #[trigger] r@.contains(q) <==> was.contains(q) || q == pid by {
                if was.contains(q) {
                    let j = choose|j: int| 0 <= j < was.len() && was[j] == q;
                    assert(r@[j] == q);
                }
                if q == pid {
                    if found {
                        let j = choose|j: int| 0 <= j < was.len() && (#[trigger] was[j]) == pid;
                        assert(r@[j] == pid);
                    } else {
                        assert(r@[was.len() as int] == pid);
                    }
                }
            }
            assert(processes@[i as int].pid == pid);
        }
    }
    proof {
        let seen = observations(processes@);
        assert forall|pid: u32| #[trigger] r@.contains(pid) <==> crate::rolling::seen_pid(
            seen,
            pid,
        ) by {
            if r@.contains(pid) {
                let j = choose|j: int|
                    0 <= j < processes@.len() && (#[trigger] processes@[j]).pid == pid;
                assert(seen[j].pid == pid);
            }
            if crate::rolling::seen_pid(seen, pid) {
                let j = choose|j: int| 0 <= j < seen.len() && #[trigger] seen[j].pid == pid;
                assert(processes@[j].pid == pid);
            }
        }
    }
    r
}

/// Whether a process has spent processor time over a window that is full
/// enough.
fn is_spender(stats: &HashMap<u32, ProcessStats>, pid: u32) -> (r: Option<u64>)
    ensures
        r is Some == spends(stats@, pid),
        r is Some ==> r->0 == stats@[pid].cpu_time_delta_ms,
{
    match stats.get(&pid) {
        Some(s) => if s.span.nanos >= MIN_SPAN_NANOS && s.cpu_time_delta_ms > 0 {
            Some(s.cpu_time_delta_ms)
        } else {
            None
        },
        None => None,
    }
}

/// Whether a process is among the largest spenders of processor time.
fn is_top_spender(stats: &HashMap<u32, ProcessStats>, pids: &Vec<u32>, pid: u32) -> (r: bool)
    requires
        pids@.no_duplicates(),
        forall|q: u32| #[trigger] pids@.contains(q) <==> stats@.contains_key(q),
    ensures
        r == top_spender(stats@, pid),
{
    let spent: u64 = match is_spender(stats, pid) {
        Some(spent) => spent,
        None => {
            return false;
        },
    };
    let mut rivals: Vec<u32> = Vec::new();
    for i in 0..pids.len()
        invariant
            pids@.no_duplicates(),
            spends(stats@, pid),
            spent == stats@[pid].cpu_time_delta_ms,
            rivals@.no_duplicates(),
            forall|q: u32| #[trigger]
                rivals@.contains(q) <==> outspends(stats@, q, pid) && pids@.take(
                    i as int,
                ).contains(q),
    {
        let q: u32 = pids[i];
        let ghost was = rivals@;
        let ghost done = pids@.take(i as int);
        let ghost next = pids@.take(i as int + 1);
        proof {
            assert(next =~= done.push(q));
            assert(!done.contains(q)) by {
                if done.contains(q) {
                    let j = choose|j: int| 0 <= j < done.len() && done[j] == q;
                    assert(pids@[j] == pids@[i as int]);
                }
            }
            assert forall|x: u32| next.contains(x) <==> done.contains(x) || x == q by {
                if done.contains(x) {
                    let j = choose|j: int| 0 <= j < done.len() && done[j] == x;
                    assert(next[j] == x);
                }
                assert(next[i as int] == q);
            }
        }
        let mut more: bool = false;
        if let Some(other) = is_spender(stats, q) {
            more = other > spent || (other == spent && q < pid);
        }
        if more {
            rivals.push(q);
        }
        proof {
            assert forall|x: u32| #[trigger] rivals@.contains(x) <==> was.contains(x) || (more && x
                == q) by {
                if was.contains(x) {
                    let j = choose|j: int| 0 <= j < was.len() && was[j] == x;
                    assert(rivals@[j] == x);
                }
                if more {
                    assert(rivals@[was.len() as int] == q);
                }
            }
            if more {
                assert(!was.contains(q));
            }
        }
    }
    proof {
        assert(pids@.take(pids.len() as int) =~= pids@);
        rivals@.unique_seq_to_set();
        let all = Set::new(|q: u32| outspends(stats@, q, pid));
        assert forall|q: u32| all.contains(q) <==> rivals@.to_set().contains(q) by {
            if outspends(stats@, q, pid) {
                assert(pids@.contains(q));
                assert(rivals@.contains(q));
            }
            if rivals@.to_set().contains(q) {
                assert(rivals@.contains(q));
            }
        }
        assert(all =~= rivals@.to_set());
    }
    rivals.len() < RECORD_TOP_CPU_TIME
}

/// The process as an alert names it.
pub open spec fn process_subject(p: ProcessSnapshot) -> AlertSubject {
    AlertSubject::Process { pid: p.pid, name: p.name, display_name: p.display_name }
}

/// The processor rule on one process: a runaway over the fast window, or a
/// process over its threshold over the slow one.
pub open spec fn cpu_rule(p: Progress, r: Round, x: ProcessSnapshot) -> Progress {
    let fast = r.fast[x.pid];
    let slow = r.slow[x.pid];
    match r.active.cpu.threshold(x.name@) {
        None => p,
        Some(percent) => {
            let acute = fast.span.nanos >= MIN_SPAN_NANOS && fast.cpu_avg >= ACUTE_FACTOR * percent;
            let chronic = slow.span.nanos >= SLOW_MIN_SPAN_NANOS && slow.cpu_avg >= percent;
            judged(
                p,
                acute || chronic,
                (x.pid, AlertKind::Cpu),
                r.now,
                r.active.cooldown,
                process_subject(x),
                if acute {
                    AlertDetail::Cpu {
                        avg_percent: fast.cpu_avg as u128,
                        threshold_percent: (ACUTE_FACTOR * percent) as u128,
                        window: span(WINDOW_NANOS),
                        runaway: true,
                    }
                } else {
                    AlertDetail::Cpu {
                        avg_percent: slow.cpu_avg as u128,
                        threshold_percent: percent as u128,
                        window: span(SLOW_WINDOW_NANOS),
                        runaway: false,
                    }
                },
            )
        },
    }
}

/// The memory rule on one process, over the slow window.
pub open spec fn memory_rule(p: Progress, r: Round, x: ProcessSnapshot) -> Progress {
    let slow = r.slow[x.pid];
    match bar_of(&r.active.memory, r.active.memory_ceiling, x.name@) {
        None => p,
        Some(bar) => if r.total_memory == 0 || slow.span.nanos < SLOW_MIN_SPAN_NANOS {
            p
        } else {
            judged(
                p,
                reached(slow, r.total_memory, bar),
                (x.pid, AlertKind::Memory),
                r.now,
                r.active.cooldown,
                process_subject(x),
                memory_detail(slow, r.total_memory, bar, span(SLOW_WINDOW_NANOS)),
            )
        },
    }
}

/// Whether a round records a process: it is over a base threshold on the fast
/// window, or among the largest spenders of processor time.
pub open spec fn recorded(r: Round, x: ProcessSnapshot) -> bool {
    let fast = r.fast[x.pid];
    &&& r.record_due
    &&& fast.span.nanos >= MIN_SPAN_NANOS
    &&& {
        ||| r.active.cpu.default_value() is Some && fast.cpu_avg
            >= r.active.cpu.default_value()->0
        ||| base_bar(&r.active.memory, r.active.memory_ceiling) is Some && r.total_memory > 0
            && reached(
            fast,
            r.total_memory,
            base_bar(&r.active.memory, r.active.memory_ceiling)->0,
        )
        ||| top_spender(r.fast, x.pid)
    }
}

/// The record of a process.
pub open spec fn record_of(r: Round, x: ProcessSnapshot) -> MetricRecord {
    let fast = r.fast[x.pid];
    MetricRecord {
        timestamp: r.timestamp,
        pid: x.pid,
        name: x.name,
        display_name: x.display_name,
        cpu_avg_percent: fast.cpu_avg,
        memory_avg_bytes: fast.memory_avg_bytes,
        memory_share_percent: if r.total_memory == 0 {
            0
        } else {
            share_of(
                fast.memory_sum_bytes as nat,
                fast.samples as nat,
                r.total_memory as nat,
            ) as u128
        },
        memory_footprint_bytes: fast.footprint_avg_bytes,
        cpu_time_ms: x.cpu_time_ms,
    }
}

/// The rules on one process, and its record.
pub open spec fn process_step(p: Progress, r: Round, x: ProcessSnapshot) -> Progress {
    let q = memory_rule(cpu_rule(p, r, x), r, x);
    if recorded(r, x) {
        Progress { records: q.records.push(record_of(r, x)), ..q }
    } else {
        q
    }
}

/// The processes one after another.
pub open spec fn process_run(p: Progress, r: Round, processes: Seq<ProcessSnapshot>) -> Progress
    decreases processes.len(),
{
    if processes.len() == 0 {
        p
    } else {
        process_step(process_run(p, r, processes.drop_last()), r, processes.last())
    }
}

/// Judges one process by the processor and memory rules.
fn judge_process(
    episodes: &mut EpisodeState,
    events: &mut Vec<AlertEvent>,
    now: Instant,
    total_memory: u64,
    active: &ActiveThresholds,
    fast: &ProcessStats,
    slow: &ProcessStats,
    x: &ProcessSnapshot,
)
    requires
        bounded(*slow),
    ensures
        forall|p: Progress, r: Round|
            p.episodes == old(episodes)@ && p.events == old(events)@ && r.now == now
                && r.total_memory == total_memory && r.active == *active && r.fast[x.pid] == *fast
                && r.slow[x.pid] == *slow ==> ({
                let q = memory_rule(#[trigger] cpu_rule(p, r, *x), r, *x);
                final(episodes)@ == q.episodes && final(events)@ == q.events
            }),
{
    if let Some(percent) = active.cpu.for_process(x.name.as_str()) {
        let bar: u128 = ACUTE_FACTOR * percent as u128;
        let acute: bool = fast.span.nanos >= MIN_SPAN_NANOS && fast.cpu_avg as u128 >= bar;
        let chronic: bool = slow.span.nanos >= SLOW_MIN_SPAN_NANOS && slow.cpu_avg >= percent;
        let subject = AlertSubject::Process {
            pid: x.pid,
            name: x.name.clone(),
            display_name: copy_text(&x.display_name),
        };
        let detail = if acute {
            AlertDetail::Cpu {
                avg_percent: fast.cpu_avg as u128,
                threshold_percent: bar,
                window: Duration { nanos: WINDOW_NANOS },
                runaway: true,
            }
        } else {
            AlertDetail::Cpu {
                avg_percent: slow.cpu_avg as u128,
                threshold_percent: percent as u128,
                window: Duration { nanos: SLOW_WINDOW_NANOS },
                runaway: false,
            }
        };
        judge(
            episodes,
            events,
            acute || chronic,
            (x.pid, AlertKind::Cpu),
            now,
            active.cooldown,
            subject,
            detail,
        );
    }
    if let Some(bar) = find_bar(&active.memory, active.memory_ceiling, x.name.as_str()) {
        if total_memory > 0 && slow.span.nanos >= SLOW_MIN_SPAN_NANOS {
            let subject = AlertSubject::Process {
                pid: x.pid,
                name: x.name.clone(),
                display_name: copy_text(&x.display_name),
            };
            judge(
                episodes,
                events,
                reaches(slow, total_memory, bar),
                (x.pid, AlertKind::Memory),
                now,
                active.cooldown,
                subject,
                describe(slow, total_memory, bar, Duration { nanos: SLOW_WINDOW_NANOS }),
            );
        }
    }
}

/// Whether a round records a process.
fn should_record(
    total_memory: u64,
    active: &ActiveThresholds,
    record_due: bool,
    stats: &HashMap<u32, ProcessStats>,
    pids: &Vec<u32>,
    fast: &ProcessStats,
    x: &ProcessSnapshot,
) -> (b: bool)
    requires
        bounded(*fast),
        stats@.contains_key(x.pid),
        stats@[x.pid] == *fast,
        pids@.no_duplicates(),
        forall|q: u32| #[trigger] pids@.contains(q) <==> stats@.contains_key(q),
    ensures
        forall|r: Round|
            r.total_memory == total_memory && r.active == *active && r.record_due == record_due
                && r.fast == stats@ ==> b == #[trigger] recorded(r, *x),
{
    if !record_due || fast.span.nanos < MIN_SPAN_NANOS {
        return false;
    }
    if let Some(percent) = active.cpu.base() {
        if fast.cpu_avg >= percent {
            return true;
        }
    }
    if let Some(percent) = active.memory.base() {
        let bar = Bar { percent, ceiling: active.memory_ceiling };
        if total_memory > 0 && reaches(fast, total_memory, bar) {
            return true;
        }
    }
    is_top_spender(stats, pids, x.pid)
}

/// The record of a process.
fn make_record(timestamp: i128, total_memory: u64, fast: &ProcessStats, x: &ProcessSnapshot) -> (m:
    MetricRecord)
    requires
        bounded(*fast),
    ensures
        forall|r: Round|
            r.total_memory == total_memory && r.timestamp == timestamp && r.fast[x.pid] == *fast
                ==> m == #[trigger] record_of(r, *x),
{
    let share_percent: u128 = if total_memory == 0 {
        0
    } else {
        share(fast.memory_sum_bytes, fast.samples, total_memory)
    };
    MetricRecord {
        timestamp,
        pid: x.pid,
        name: x.name.clone(),
        display_name: match &x.display_name {
            Some(name) => Some(name.clone()),
            None => None,
        },
        cpu_avg_percent: fast.cpu_avg,
        memory_avg_bytes: fast.memory_avg_bytes,
        memory_share_percent: share_percent,
        memory_footprint_bytes: fast.footprint_avg_bytes,
        cpu_time_ms: x.cpu_time_ms,
    }
}

/// The samples of each process over a window.
pub ghost struct Windows {
    pub window: Duration,
    pub history: Map<u32, Seq<Sample>>,
}

/// The averages once the observations are in.
pub open spec fn window_stats(w: Windows, seen: Seq<Observation>, now: Instant) -> Map<
    u32,
    ProcessStats,
> {
    all_stats(w.history, seen, now, w.window)
}

/// The samples once the observations are in.
pub open spec fn window_after(w: Windows, seen: Seq<Observation>, now: Instant) -> Windows {
    Windows { window: w.window, history: history_after(w.history, seen, now, w.window) }
}

/// What the engine remembers from one snapshot to the next.
pub ghost struct EngineState {
    pub fast: Windows,
    pub slow: Windows,
    pub apps: Windows,
    pub episodes: Episodes,
    /// Volumes that have alerted and not yet fallen
    pub disarmed: Set<Seq<char>>,
    pub pressure: Pressure,
    pub last_record: Option<Instant>,
}

/// What one evaluation gives: the state after it, the alerts and the records.
pub ghost struct Outcome {
    pub state: EngineState,
    pub events: Seq<AlertEvent>,
    pub records: Seq<MetricRecord>,
}

/// The volume and pressure rules.
pub open spec fn machine_rules(
    s: EngineState,
    now: Instant,
    snapshot: SystemSnapshot,
    active: ActiveThresholds,
) -> Outcome {
    let disk = disk_rule(s.disarmed, &active.disk, snapshot.disks);
    let pressure = pressure_rule(s.pressure, now, active.pressure, snapshot);
    Outcome {
        state: EngineState {
            disarmed: disk.0,
            pressure: pressure.state,
            ..s
        },
        events: with_event(disk.1, pressure.event),
        records: Seq::empty(),
    }
}

/// The rules on whole applications, where there are any and a rule is on.
pub open spec fn app_rules(
    o: Outcome,
    now: Instant,
    snapshot: SystemSnapshot,
    active: ActiveThresholds,
) -> Outcome {
    if snapshot.process_groups is None || !(active.app_cpu.enabled()
        || active.app_memory.enabled()) {
        o
    } else {
        let groups = snapshot.process_groups->0@;
        let seen = group_observations(groups);
        let stats = window_stats(o.state.apps, seen, now);
        let round = Round {
            now,
            total_memory: snapshot.memory.total_bytes,
            timestamp: snapshot.timestamp,
            active,
            fast: Map::empty(),
            slow: stats,
            record_due: false,
        };
        let start = Progress {
            episodes: retained(o.state.episodes, true, stats),
            events: o.events,
            records: o.records,
        };
        let done = app_run(start, round, groups);
        Outcome {
            state: EngineState {
                apps: window_after(o.state.apps, seen, now),
                episodes: done.episodes,
                ..o.state
            },
            events: done.events,
            records: done.records,
        }
    }
}

/// Whether a round at `now` records.
pub open spec fn recording_due(last: Option<Instant>, now: Instant) -> bool {
    last is None || nanos_since(now, last->0) >= RECORD_EVERY_NANOS
}

/// The rules on processes, where there are any, and the records.
pub open spec fn process_rules(
    o: Outcome,
    now: Instant,
    snapshot: SystemSnapshot,
    active: ActiveThresholds,
) -> Outcome {
    if snapshot.processes is None {
        o
    } else {
        let processes = snapshot.processes->0@;
        let seen = observations(processes);
        let due = recording_due(o.state.last_record, now);
        let round = Round {
            now,
            total_memory: snapshot.memory.total_bytes,
            timestamp: snapshot.timestamp,
            active,
            fast: window_stats(o.state.fast, seen, now),
            slow: window_stats(o.state.slow, seen, now),
            record_due: due,
        };
        let start = Progress {
            episodes: retained(o.state.episodes, false, round.fast),
            events: o.events,
            records: o.records,
        };
        let done = process_run(start, round, processes);
        Outcome {
            state: EngineState {
                fast: window_after(o.state.fast, seen, now),
                slow: window_after(o.state.slow, seen, now),
                episodes: done.episodes,
                last_record: if due {
                    Some(now)
                } else {
                    o.state.last_record
                },
                ..o.state
            },
            events: done.events,
            records: done.records,
        }
    }
}

/// One evaluation: volumes, memory pressure, applications, processes.
pub open spec fn evaluated(
    s: EngineState,
    now: Instant,
    snapshot: SystemSnapshot,
    active: ActiveThresholds,
) -> Outcome {
    process_rules(
        app_rules(machine_rules(s, now, snapshot, active), now, snapshot, active),
        now,
        snapshot,
        active,
    )
}

/// The result of one evaluation.
pub struct Evaluation {
    pub events: Vec<AlertEvent>,
    /// Data points for the daily history; there are some once a minute at most
    pub records: Vec<MetricRecord>,
}

/// The rule engine: what it remembers between snapshots.
pub struct AlertEngine {
    fast: ProcessWindows,
    slow: ProcessWindows,
    apps: ProcessWindows,
    episodes: EpisodeState,
    disarmed: Names,
    pressure: Pressure,
    last_record: Option<Instant>,
}

/// A window without samples.
pub open spec fn empty_window(nanos: u128) -> Windows {
    Windows { window: span(nanos), history: Map::empty() }
}

/// What a fresh engine remembers: nothing.
pub open spec fn fresh_state() -> EngineState {
    EngineState {
        fast: empty_window(WINDOW_NANOS),
        slow: empty_window(SLOW_WINDOW_NANOS),
        apps: empty_window(SLOW_WINDOW_NANOS),
        episodes: Episodes { active: Map::empty(), last_alert: Map::empty() },
        disarmed: Set::empty(),
        pressure: no_pressure(),
        last_record: None,
    }
}

/// The samples that a window holds.
pub open spec fn windows_of(w: ProcessWindows) -> Windows {
    Windows { window: w.window(), history: w.history() }
}

impl AlertEngine {
    /// What the engine remembers.
    pub closed spec fn view(&self) -> EngineState {
        EngineState {
            fast: windows_of(self.fast),
            slow: windows_of(self.slow),
            apps: windows_of(self.apps),
            episodes: self.episodes@,
            disarmed: self.disarmed@,
            pressure: self.pressure,
            last_record: self.last_record,
        }
    }

    /// An engine that remembers nothing.
    pub fn new() -> (r: AlertEngine)
        ensures
            r@ == fresh_state(),
    {
        AlertEngine {
            fast: ProcessWindows::new(Duration { nanos: WINDOW_NANOS }),
            slow: ProcessWindows::new(Duration { nanos: SLOW_WINDOW_NANOS }),
            apps: ProcessWindows::new(Duration { nanos: SLOW_WINDOW_NANOS }),
            episodes: EpisodeState::new(),
            disarmed: Names::new(),
            pressure: Pressure { since: None, alerted: 0, told: None },
            last_record: None,
        }
    }

    /// Judges the applications of a snapshot.
    fn judge_apps(
        &mut self,
        events: &mut Vec<AlertEvent>,
        now: Instant,
        snapshot: &SystemSnapshot,
        active: &ActiveThresholds,
    )
        ensures
            forall|o: Outcome|
                o.state == old(self)@ && o.events == old(events)@ ==> ({
                    let q = #[trigger] app_rules(o, now, *snapshot, *active);
                    final(self)@ == q.state && final(events)@ == q.events && q.records == o.records
                }),
    {
        let groups = match &snapshot.process_groups {
            Some(groups) => groups,
            None => {
                return;
            },
        };
        if !active.app_cpu.any_enabled() && !active.app_memory.any_enabled() {
            return;
        }
        let mut seen: Vec<Observation> = Vec::new();
        for i in 0..groups.len()
            invariant
                seen@ =~= group_observations(groups@.take(i as int)),
        {
            let g = &groups[i];
            seen.push(
                Observation {
                    pid: g.root_pid,
                    cpu: g.cpu_usage_percent,
                    memory_bytes: g.memory_bytes,
                    footprint_bytes: g.phys_footprint_bytes,
                    cpu_time_ms: 0,
                },
            );
        }
        assert(groups@.take(groups.len() as int) =~= groups@);
        let ghost before = windows_of(self.apps);
        let stats = self.apps.observe(now, &seen);
        self.episodes.retain(true, &stats);
        let total_memory: u64 = snapshot.memory.total_bytes;
        let ghost round = Round {
            now,
            total_memory,
            timestamp: snapshot.timestamp,
            active: *active,
            fast: Map::empty(),
            slow: stats@,
            record_due: false,
        };
        let ghost start = Progress {
            episodes: self.episodes@,
            events: events@,
            records: Seq::empty(),
        };
        let ghost apps_after = windows_of(self.apps);
        let ghost kept = *self;
        for i in 0..groups.len()
            invariant
                self.episodes@ == app_run(start, round, groups@.take(i as int)).episodes,
                events@ == app_run(start, round, groups@.take(i as int)).events,
                self.apps == kept.apps,
                self.fast == kept.fast,
                self.slow == kept.slow,
                self.disarmed == kept.disarmed,
                self.pressure == kept.pressure,
                self.last_record == kept.last_record,
                stats@ == all_stats(before.history, group_observations(groups@), now, before.window),
                forall|pid: u32| #[trigger] stats@.contains_key(pid) ==> bounded(stats@[pid]),
                round == (Round {
                    now,
                    total_memory,
                    timestamp: snapshot.timestamp,
                    active: *active,
                    fast: Map::empty(),
                    slow: stats@,
                    record_due: false,
                }),
        {
            let g = &groups[i];
            proof {
                assert(groups@.take(i as int + 1).drop_last() =~= groups@.take(i as int));
                assert(group_observations(groups@)[i as int].pid == g.root_pid);
                assert(stats@.contains_key(g.root_pid));
            }
            match stats.get(&g.root_pid) {
                Some(stat) => {
                    judge_app(&mut self.episodes, events, now, total_memory, active, stat, g);
                },
                None => {},
            }
        }
        proof {
            assert(groups@.take(groups.len() as int) =~= groups@);
            assert forall|o: Outcome| o.state == old(self)@ && o.events == old(events)@ implies ({
                let q = #[trigger] app_rules(o, now, *snapshot, *active);
                self@ == q.state && events@ == q.events && q.records == o.records
            }) by {
                let other = Progress {
                    episodes: start.episodes,
                    events: start.events,
                    records: o.records,
                };
                lemma_app_records(start, other, round, groups@);
            }
        }
    }

    /// Judges the processes of a snapshot.
    fn judge_processes(
        &mut self,
        events: &mut Vec<AlertEvent>,
        records: &mut Vec<MetricRecord>,
        now: Instant,
        snapshot: &SystemSnapshot,
        active: &ActiveThresholds,
    )
        ensures
            forall|o: Outcome|
                o.state == old(self)@ && o.events == old(events)@ && o.records == old(records)@
                    ==> ({
                    let q = #[trigger] process_rules(o, now, *snapshot, *active);
                    final(self)@ == q.state && final(events)@ == q.events && final(records)@
                        == q.records
                }),
    {
        let processes = match &snapshot.processes {
            Some(processes) => processes,
            None => {
                return;
            },
        };
        let record_due: bool = match self.last_record {
            Some(t) => now.duration_since(t).nanos >= RECORD_EVERY_NANOS,
            None => true,
        };
        if record_due {
            self.last_record = Some(now);
        }
        let ghost fast_before = windows_of(self.fast);
        let ghost slow_before = windows_of(self.slow);
        let ghost seen = observations(processes@);
        let fast_stats = self.fast.record(now, processes);
        let slow_stats = self.slow.record(now, processes);
        let pids = distinct_pids(processes);
        self.episodes.retain(false, &fast_stats);
        let total_memory: u64 = snapshot.memory.total_bytes;
        let ghost round = Round {
            now,
            total_memory,
            timestamp: snapshot.timestamp,
            active: *active,
            fast: fast_stats@,
            slow: slow_stats@,
            record_due,
        };
        let ghost start = Progress {
            episodes: self.episodes@,
            events: events@,
            records: records@,
        };
        let ghost kept = *self;
        for i in 0..processes.len()
            invariant
                self.episodes@ == process_run(start, round, processes@.take(i as int)).episodes,
                events@ == process_run(start, round, processes@.take(i as int)).events,
                records@ == process_run(start, round, processes@.take(i as int)).records,
                self.apps == kept.apps,
                self.fast == kept.fast,
                self.slow == kept.slow,
                self.disarmed == kept.disarmed,
                self.pressure == kept.pressure,
                self.last_record == kept.last_record,
                seen == observations(processes@),
                fast_stats@ == all_stats(fast_before.history, seen, now, fast_before.window),
                slow_stats@ == all_stats(slow_before.history, seen, now, slow_before.window),
                forall|pid: u32| #[trigger]
                    fast_stats@.contains_key(pid) ==> bounded(fast_stats@[pid]),
                forall|pid: u32| #[trigger]
                    slow_stats@.contains_key(pid) ==> bounded(slow_stats@[pid]),
                pids@.no_duplicates(),
                forall|q: u32| #[trigger] pids@.contains(q) <==> fast_stats@.contains_key(q),
                round == (Round {
                    now,
                    total_memory,
                    timestamp: snapshot.timestamp,
                    active: *active,
                    fast: fast_stats@,
                    slow: slow_stats@,
                    record_due,
                }),
        {
            let x = &processes[i];
            let ghost done = process_run(start, round, processes@.take(i as int));
            proof {
                assert(processes@.take(i as int + 1).drop_last() =~= processes@.take(i as int));
                assert(seen[i as int].pid == x.pid);
                assert(fast_stats@.contains_key(x.pid));
                assert(slow_stats@.contains_key(x.pid));
            }
            match (fast_stats.get(&x.pid), slow_stats.get(&x.pid)) {
                (Some(fast), Some(slow)) => {
                    judge_process(
                        &mut self.episodes,
                        events,
                        now,
                        total_memory,
                        active,
                        fast,
                        slow,
                        x,
                    );
                    let ghost after = memory_rule(cpu_rule(done, round, *x), round, *x);
                    assert(self.episodes@ == after.episodes && events@ == after.events);
                    assert(after.records == done.records);
                    if should_record(
                        total_memory,
                        active,
                        record_due,
                        &fast_stats,
                        &pids,
                        fast,
                        x,
                    ) {
                        assert(recorded(round, *x));
                        let m = make_record(snapshot.timestamp, total_memory, fast, x);
                        assert(m == record_of(round, *x));
                        records.push(m);
                    } else {
                        assert(!recorded(round, *x));
                    }
                },
                _ => {},
            }
        }
        assert(processes@.take(processes.len() as int) =~= processes@);
    }

    /// Judges one snapshot, observed at `now`.
    pub fn evaluate(
        &mut self,
        now: Instant,
        snapshot: &SystemSnapshot,
        active: &ActiveThresholds,
    ) -> (r: Evaluation)
        ensures
            ({
                let o = evaluated(old(self)@, now, *snapshot, *active);
                &&& final(self)@ == o.state
                &&& r.events@ == o.events
                &&& r.records@ == o.records
            }),
    {
        let mut events: Vec<AlertEvent> = Vec::new();
        let mut records: Vec<MetricRecord> = Vec::new();
        judge_disks(&mut self.disarmed, &mut events, &active.disk, &snapshot.disks);
        judge_pressure(
            &mut self.pressure,
            &mut events,
            now,
            active.pressure,
            snapshot,
        );
        let ghost first = machine_rules(old(self)@, now, *snapshot, *active);
        assert(self@ == first.state);
        self.judge_apps(&mut events, now, snapshot, active);
        let ghost second = app_rules(first, now, *snapshot, *active);
        assert(self@ == second.state && events@ == second.events);
        assert(records@ =~= second.records);
        self.judge_processes(&mut events, &mut records, now, snapshot, active);
        Evaluation { events, records }
    }
}

/// The rules on applications look at no record and add none.
proof fn lemma_app_records(a: Progress, b: Progress, r: Round, groups: Seq<ProcessGroupSnapshot>)
    requires
        a.episodes == b.episodes,
        a.events == b.events,
    ensures
        app_run(a, r, groups).episodes == app_run(b, r, groups).episodes,
        app_run(a, r, groups).events == app_run(b, r, groups).events,
        app_run(b, r, groups).records == b.records,
    decreases groups.len(),
{
    if groups.len() > 0 {
        lemma_app_records(a, b, r, groups.drop_last());
    }
}

impl Default for AlertEngine {
    fn default() -> (r: AlertEngine)
        ensures
            r@ == fresh_state(),
    {
        AlertEngine::new()
    }
}

} // verus!
