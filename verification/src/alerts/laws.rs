//! What the rules promise over more than one step.
use vstd::prelude::*;
use super::active::ActiveThresholds;
use super::engine::{
    app_rules, app_run, cpu_rule, disk_run, disk_step, evaluated, fills, machine_rules,
    no_pressure, pressure_patience, pressure_rule, process_run, process_step, recorded,
    recording_due, reminder_wait, DiskProgress, EngineState, Pressure, Progress, Round,
    ACUTE_FACTOR, DISK_REARM_MARGIN, FIRST_REMINDER_NANOS, MIN_SPAN_NANOS, RECORD_EVERY_NANOS,
    SLOW_MIN_SPAN_NANOS,
};
use super::episode::{retained, Episodes, Key};
use super::event::AlertKind;
use super::thresholds::Thresholds;
use crate::rolling::ProcessStats;
use crate::snapshot::{DiskSnapshot, ProcessGroupSnapshot, ProcessSnapshot, SystemSnapshot};
use crate::time::{nanos_since, Instant};

verus! {

/// While a volume's readings stay above its threshold less the margin, they
/// raise one alert at most, however many there are.
pub proof fn law_full_volume_alerts_once(
    s: DiskProgress,
    rule: &Thresholds<u64>,
    mount: Seq<char>,
    percent: u64,
    readings: Seq<DiskSnapshot>,
)
    requires
        rule.threshold(mount) == Some(percent),
        forall|i: int|
            0 <= i < readings.len() ==> (#[trigger] readings[i]).mount_point@ == mount && fills(
                readings[i],
                percent - DISK_REARM_MARGIN,
            ),
    ensures
        s.1.len() <= disk_run(s, rule, readings).1.len() <= s.1.len() + 1,
        s.0.contains(mount) ==> disk_run(s, rule, readings).1 == s.1,
        disk_run(s, rule, readings).1.len() == s.1.len() + 1 ==> disk_run(
            s,
            rule,
            readings,
        ).0.contains(mount),
        s.0.contains(mount) ==> disk_run(s, rule, readings).0.contains(mount),
    decreases readings.len(),
{
    if readings.len() > 0 {
        assert(readings.last() == readings[readings.len() - 1]);
        law_full_volume_alerts_once(s, rule, mount, percent, readings.drop_last());
    }
}

/// A volume that alerted alerts again after it has fallen below its threshold
/// less the margin and reached the threshold anew.
pub proof fn law_volume_rearms(
    s: DiskProgress,
    rule: &Thresholds<u64>,
    percent: u64,
    low: DiskSnapshot,
    high: DiskSnapshot,
)
    requires
        low.mount_point@ == high.mount_point@,
        rule.threshold(low.mount_point@) == Some(percent),
        low.total_bytes > 0,
        high.total_bytes > 0,
        s.0.contains(low.mount_point@),
        !fills(low, percent - DISK_REARM_MARGIN),
        fills(high, percent as int),
    ensures
        disk_step(s, rule, low).1 == s.1,
        disk_step(disk_step(s, rule, low), rule, high).1.len() == s.1.len() + 1,
{
}

/// Memory pressure alerts only for a level above every one that has alerted
/// since it was last normal, and only once it has lasted long enough. Whatever
/// else it raises is a reminder, which tells the time since the first alert.
pub proof fn law_pressure_alerts_once_per_level(
    s: Pressure,
    now: Instant,
    threshold: Option<u32>,
    snapshot: SystemSnapshot,
)
    ensures
        ({
            let step = pressure_rule(s, now, threshold, snapshot);
            let level = snapshot.memory.pressure_level;
            &&& step.event is Some && step.event->0.repeat_after is None ==> {
                &&& level is Some
                &&& level->0 > s.alerted
                &&& step.state.alerted == level->0
                &&& step.state.since is Some
                &&& nanos_since(now, step.state.since->0) >= pressure_patience(level->0)
            }
            &&& step.event is Some && step.event->0.repeat_after is Some ==> {
                &&& s.told is Some
                &&& step.state.alerted == s.alerted
                &&& step.event->0.repeat_after->0.nanos == nanos_since(now, s.told->0.first)
            }
            &&& level is Some && level->0 > 1 ==> step.state.alerted >= s.alerted
        }),
{
}

/// Reminders of memory pressure keep their distance: after an alert or a reminder
/// none comes before the wait is over, and the wait grows from half an hour to
/// four hours. While the pressure lasts, one comes once the wait is over, without
/// end.
pub proof fn law_pressure_reminders_back_off(
    s: Pressure,
    now: Instant,
    threshold: Option<u32>,
    snapshot: SystemSnapshot,
)
    requires
        s.told is Some,
        threshold is Some,
        snapshot.memory.pressure_level is Some,
        snapshot.memory.pressure_level->0 > 1,
        snapshot.memory.pressure_level->0 >= threshold->0,
        snapshot.memory.pressure_level->0 <= s.alerted,
    ensures
        ({
            let step = pressure_rule(s, now, threshold, snapshot);
            let told = s.told->0;
            &&& step.event is Some <==> nanos_since(now, told.last) >= reminder_wait(told.reminders)
            &&& step.event is Some ==> {
                &&& step.state.told is Some
                &&& step.state.told->0.first == told.first
                &&& step.state.told->0.last == now
                &&& reminder_wait(step.state.told->0.reminders) == if reminder_wait(told.reminders)
                    < 8 * FIRST_REMINDER_NANOS {
                    2 * reminder_wait(told.reminders)
                } else {
                    8 * FIRST_REMINDER_NANOS
                }
            }
            &&& step.event is None ==> step.state.told == s.told
        }),
{
}

/// A normal level ends the pressure's episode: what follows starts anew.
pub proof fn law_normal_pressure_rearms(
    s: Pressure,
    now: Instant,
    threshold: u32,
    snapshot: SystemSnapshot,
)
    requires
        snapshot.memory.pressure_level is Some,
        snapshot.memory.pressure_level->0 <= 1,
    ensures
        pressure_rule(s, now, Some(threshold), snapshot).state == no_pressure(),
        pressure_rule(s, now, Some(threshold), snapshot).event is None,
{
}

/// A process raises no alert before one of its windows is full enough.
pub proof fn law_no_alert_before_the_window_fills(p: Progress, r: Round, x: ProcessSnapshot)
    requires
        r.fast[x.pid].span.nanos < MIN_SPAN_NANOS,
        r.slow[x.pid].span.nanos < SLOW_MIN_SPAN_NANOS,
    ensures
        process_step(p, r, x).events == p.events,
        process_step(p, r, x).records == p.records,
{
}

/// A process below its threshold on both windows raises no processor alert.
pub proof fn law_below_threshold_is_silent(p: Progress, r: Round, x: ProcessSnapshot, percent: u64)
    requires
        r.active.cpu.threshold(x.name@) == Some(percent),
        r.fast[x.pid].cpu_avg < ACUTE_FACTOR * percent,
        r.slow[x.pid].cpu_avg < percent,
    ensures
        cpu_rule(p, r, x).events == p.events,
        !cpu_rule(p, r, x).episodes.active.contains_key((x.pid, AlertKind::Cpu)),
{
}

/// Whether a process is recorded depends on the base thresholds alone: the
/// values of single names silence alerts, not records.
pub proof fn law_records_ignore_single_names(r: Round, q: Round, x: ProcessSnapshot)
    requires
        r.now == q.now,
        r.total_memory == q.total_memory,
        r.fast == q.fast,
        r.record_due == q.record_due,
        r.active.cpu.default_value() == q.active.cpu.default_value(),
        r.active.memory.default_value() == q.active.memory.default_value(),
        r.active.memory_ceiling == q.active.memory_ceiling,
    ensures
        recorded(r, x) == recorded(q, x),
{
}

/// The processes of a round that does not record add no record.
proof fn lemma_no_records(p: Progress, r: Round, processes: Seq<ProcessSnapshot>)
    requires
        !r.record_due,
    ensures
        process_run(p, r, processes).records == p.records,
    decreases processes.len(),
{
    if processes.len() > 0 {
        lemma_no_records(p, r, processes.drop_last());
    }
}

/// The applications add no record.
pub(crate) proof fn lemma_apps_record_nothing(p: Progress, r: Round, groups: Seq<ProcessGroupSnapshot>)
    ensures
        app_run(p, r, groups).records == p.records,
    decreases groups.len(),
{
    if groups.len() > 0 {
        lemma_apps_record_nothing(p, r, groups.drop_last());
    }
}

/// Two evaluations less than a minute apart do not both record.
pub proof fn law_records_once_a_minute(
    s: EngineState,
    first: Instant,
    second: Instant,
    a: SystemSnapshot,
    b: SystemSnapshot,
    active: ActiveThresholds,
)
    requires
        nanos_since(second, first) < RECORD_EVERY_NANOS,
        evaluated(s, first, a, active).records.len() > 0,
    ensures
        evaluated(evaluated(s, first, a, active).state, second, b, active).records.len() == 0,
{
    lemma_recording_round(s, first, a, active);
    let t = evaluated(s, first, a, active).state;
    lemma_recording_round(t, second, b, active);
}

/// A snapshot is recorded only when recording is due, and recording sets the
/// time of the last one.
proof fn lemma_recording_round(
    s: EngineState,
    now: Instant,
    snapshot: SystemSnapshot,
    active: ActiveThresholds,
)
    ensures
        evaluated(s, now, snapshot, active).records.len() > 0 ==> recording_due(s.last_record, now)
            && evaluated(s, now, snapshot, active).state.last_record == Some(now),
{
    let first = machine_rules(s, now, snapshot, active);
    let second = app_rules(first, now, snapshot, active);
    assert(second.records == first.records) by {
        if snapshot.process_groups is Some && (active.app_cpu.enabled()
            || active.app_memory.enabled()) {
            let groups = snapshot.process_groups->0@;
            let seen = super::engine::group_observations(groups);
            let stats = super::engine::window_stats(first.state.apps, seen, now);
            let round = Round {
                now,
                total_memory: snapshot.memory.total_bytes,
                timestamp: snapshot.timestamp,
                active,
                fast: Map::empty(),
                slow: stats,
                record_due: false,
            };
            let start = Progress {
                episodes: retained(first.state.episodes, true, stats),
                events: first.events,
                records: first.records,
            };
            lemma_apps_record_nothing(start, round, groups);
        }
    }
    if snapshot.processes is Some && !recording_due(s.last_record, now) {
        let processes = snapshot.processes->0@;
        let seen = crate::rolling::observations(processes);
        let round = Round {
            now,
            total_memory: snapshot.memory.total_bytes,
            timestamp: snapshot.timestamp,
            active,
            fast: super::engine::window_stats(second.state.fast, seen, now),
            slow: super::engine::window_stats(second.state.slow, seen, now),
            record_due: false,
        };
        let start = Progress {
            episodes: retained(second.state.episodes, false, round.fast),
            events: second.events,
            records: second.records,
        };
        lemma_no_records(start, round, processes);
    }
}

/// Forgetting dead processes leaves the conditions of applications alone, and
/// the other way round.
pub proof fn law_tiers_are_forgotten_apart(
    s: Episodes,
    alive: Map<u32, ProcessStats>,
    key: Key,
    app: bool,
)
    requires
        super::episode::is_app_kind(key.1) != app,
    ensures
        retained(s, app, alive).active.contains_key(key) == s.active.contains_key(key),
        s.active.contains_key(key) ==> retained(s, app, alive).active[key] == s.active[key],
        retained(s, app, alive).last_alert.contains_key(key) == s.last_alert.contains_key(key),
        s.last_alert.contains_key(key) ==> retained(s, app, alive).last_alert[key]
            == s.last_alert[key],
{
}

} // verus!
