//! What the rules promise over a run of snapshots.
use vstd::prelude::*;
use super::active::ActiveThresholds;
use super::engine::{
    app_cpu_rule, app_rules, app_run, app_subject, cpu_rule, disk_event, disk_rule, disk_run,
    evaluated, fresh_state, group_observations, judged, machine_rules, memory_rule, pressure_rule,
    process_run, process_step, process_subject, record_of, recorded, recording_due, span,
    top_spender, window_stats, with_event, DiskProgress, EngineState, Outcome, Progress, Round,
    ACUTE_FACTOR, MIN_SPAN_NANOS, SLOW_MIN_SPAN_NANOS, SLOW_WINDOW_NANOS, WINDOW_NANOS,
};
use super::episode::{decision, elapsed_of, retained, Episodes, Key};
use super::event::{AlertDetail, AlertEvent, AlertKind, AlertSubject};
use super::laws::lemma_apps_record_nothing;
use super::memory::{bar_of, measured_sum, memory_detail, reached, share_of, share_reaches};
use super::names::mounted;
use super::thresholds::Thresholds;
use crate::averages::lemma_expire_twice;
use crate::records::MetricRecord;
use crate::rolling::{
    held, observations, observed, seen_pid, stats_of, unexpired, ProcessStats, Sample,
};
use crate::snapshot::{DiskSnapshot, ProcessGroupSnapshot, ProcessSnapshot, SystemSnapshot};
use crate::time::{Duration, Instant};

verus! {

/// One snapshot as the engine gets it.
pub ghost struct Call {
    pub now: Instant,
    pub snapshot: SystemSnapshot,
    pub active: ActiveThresholds,
}

/// What a fresh engine remembers after the calls.
pub open spec fn after_calls(calls: Seq<Call>) -> EngineState
    decreases calls.len(),
{
    if calls.len() == 0 {
        fresh_state()
    } else {
        let call = calls.last();
        evaluated(
            after_calls(calls.drop_last()),
            call.now,
            call.snapshot,
            call.active,
        ).state
    }
}

/// What the last of the calls gives.
pub open spec fn last_outcome(calls: Seq<Call>) -> Outcome {
    let call = calls.last();
    evaluated(after_calls(calls.drop_last()), call.now, call.snapshot, call.active)
}

/// Whether the clock never goes back.
pub open spec fn in_time(calls: Seq<Call>) -> bool {
    forall|i: int, j: int|
        0 <= i <= j < calls.len() ==> (#[trigger] calls[i]).now.nanos <= (
        #[trigger] calls[j]).now.nanos
}

/// The samples of a process since it was last absent. A snapshot without a list
/// of processes tells nothing of it.
pub open spec fn unbroken(calls: Seq<Call>, pid: u32) -> Seq<Sample>
    decreases calls.len(),
{
    if calls.len() == 0 {
        Seq::empty()
    } else {
        let call = calls.last();
        let before = unbroken(calls.drop_last(), pid);
        match call.snapshot.processes {
            None => before,
            Some(processes) => {
                let seen = observations(processes@);
                if seen_pid(seen, pid) {
                    before + observed(seen, pid, call.now)
                } else {
                    Seq::empty()
                }
            },
        }
    }
}

/// The averages of a process over its unbroken samples of the last `nanos`
/// nanoseconds, those of the last call among them.
pub open spec fn recent(calls: Seq<Call>, pid: u32, nanos: u128) -> ProcessStats {
    let now = calls.last().now;
    stats_of(unexpired(unbroken(calls, pid), now, span(nanos)), now)
}

/// The windows of a run are those of a fresh engine, and what they hold of a
/// process at a later time is what is left then of its unbroken samples.
proof fn lemma_windows(calls: Seq<Call>, pid: u32, more: Seq<Sample>, late: Instant)
    requires
        in_time(calls),
        calls.len() > 0 ==> calls.last().now.nanos <= late.nanos,
    ensures
        ({
            let s = after_calls(calls);
            let samples = unbroken(calls, pid);
            &&& s.fast.window == span(WINDOW_NANOS)
            &&& s.slow.window == span(SLOW_WINDOW_NANOS)
            &&& unexpired(held(s.fast.history, pid) + more, late, span(WINDOW_NANOS)) == unexpired(
                samples + more,
                late,
                span(WINDOW_NANOS),
            )
            &&& unexpired(held(s.slow.history, pid) + more, late, span(SLOW_WINDOW_NANOS))
                == unexpired(samples + more, late, span(SLOW_WINDOW_NANOS))
        }),
    decreases calls.len(),
{
    if calls.len() > 0 {
        let call = calls.last();
        let before = calls.drop_last();
        let s = after_calls(before);
        assert(before.len() > 0 ==> before.last() == calls[before.len() - 1]);
        match call.snapshot.processes {
            None => {
                lemma_windows(before, pid, more, late);
            },
            Some(processes) => {
                let seen = observations(processes@);
                let new = observed(seen, pid, call.now);
                lemma_windows(before, pid, new + more, late);
                if seen_pid(seen, pid) {
                    let fast = held(s.fast.history, pid);
                    let slow = held(s.slow.history, pid);
                    lemma_expire_twice(fast + new, more, call.now, late, span(WINDOW_NANOS));
                    lemma_expire_twice(slow + new, more, call.now, late, span(SLOW_WINDOW_NANOS));
                    assert(fast + new + more =~= fast + (new + more));
                    assert(slow + new + more =~= slow + (new + more));
                    assert(unbroken(before, pid) + new + more =~= unbroken(before, pid) + (new
                        + more));
                }
            },
        }
    }
}

/// What the rules on processes look at in the last of the calls.
pub open spec fn last_round(calls: Seq<Call>) -> Round {
    let call = calls.last();
    let seen = observations(call.snapshot.processes->0@);
    Round {
        now: call.now,
        total_memory: call.snapshot.memory.total_bytes,
        timestamp: call.snapshot.timestamp,
        active: call.active,
        fast: Map::new(|pid: u32| seen_pid(seen, pid), |pid: u32| recent(calls, pid, WINDOW_NANOS)),
        slow: Map::new(
            |pid: u32| seen_pid(seen, pid),
            |pid: u32| recent(calls, pid, SLOW_WINDOW_NANOS),
        ),
        record_due: recording_due(after_calls(calls.drop_last()).last_record, call.now),
    }
}

/// The volume, pressure and application rules of the last call.
spec fn before_processes(calls: Seq<Call>) -> Outcome {
    let call = calls.last();
    let s = after_calls(calls.drop_last());
    app_rules(
        machine_rules(s, call.now, call.snapshot, call.active),
        call.now,
        call.snapshot,
        call.active,
    )
}

/// Where the processes of the last call start from.
spec fn process_start(calls: Seq<Call>) -> Progress {
    let o = before_processes(calls);
    Progress {
        episodes: retained(o.state.episodes, false, last_round(calls).fast),
        events: o.events,
        records: o.records,
    }
}

/// The processes of the last call are judged by the averages over their
/// unbroken samples.
proof fn lemma_last_round(calls: Seq<Call>)
    requires
        calls.len() > 0,
        in_time(calls),
        calls.last().snapshot.processes is Some,
    ensures
        ({
            let processes = calls.last().snapshot.processes->0@;
            let done = process_run(process_start(calls), last_round(calls), processes);
            &&& last_outcome(calls).events == done.events
            &&& last_outcome(calls).records == done.records
        }),
{
    let call = calls.last();
    let before = calls.drop_last();
    let s = after_calls(before);
    let seen = observations(call.snapshot.processes->0@);
    assert(before.len() > 0 ==> before.last() == calls[before.len() - 1]);
    let o = before_processes(calls);
    assert(o.state.fast == s.fast && o.state.slow == s.slow);
    lemma_windows(before, 0, Seq::empty(), call.now);
    assert forall|pid: u32| seen_pid(seen, pid) implies window_stats(s.fast, seen, call.now)[pid]
        == recent(calls, pid, WINDOW_NANOS) && window_stats(s.slow, seen, call.now)[pid] == recent(
        calls,
        pid,
        SLOW_WINDOW_NANOS,
    ) by {
        lemma_windows(before, pid, observed(seen, pid, call.now), call.now);
    }
    assert(window_stats(s.fast, seen, call.now) =~= last_round(calls).fast);
    assert(window_stats(s.slow, seen, call.now) =~= last_round(calls).slow);
}

/// Whether an alert is on the processor use of a process.
pub open spec fn on_processor(e: AlertEvent, pid: u32) -> bool {
    &&& e.subject matches AlertSubject::Process { pid: other, .. } && other == pid
    &&& e.detail is Cpu
}

/// The alerts on the processor use of a process.
pub open spec fn processor_alerts(events: Seq<AlertEvent>, pid: u32) -> Seq<AlertEvent>
    decreases events.len(),
{
    if events.len() == 0 {
        Seq::empty()
    } else if on_processor(events.last(), pid) {
        processor_alerts(events.drop_last(), pid).push(events.last())
    } else {
        processor_alerts(events.drop_last(), pid)
    }
}

/// One more alert.
proof fn lemma_alert_pushed(events: Seq<AlertEvent>, e: AlertEvent, pid: u32)
    ensures
        processor_alerts(events.push(e), pid) == if on_processor(e, pid) {
            processor_alerts(events, pid).push(e)
        } else {
            processor_alerts(events, pid)
        },
{
    assert(events.push(e).drop_last() =~= events);
}

/// Volumes raise no alert on a process.
proof fn lemma_disks_apart(
    s: DiskProgress,
    rule: &Thresholds<u64>,
    disks: Seq<DiskSnapshot>,
    pid: u32,
)
    ensures
        processor_alerts(disk_run(s, rule, disks).1, pid) == processor_alerts(s.1, pid),
    decreases disks.len(),
{
    if disks.len() > 0 {
        lemma_disks_apart(s, rule, disks.drop_last(), pid);
        let t = disk_run(s, rule, disks.drop_last());
        if rule.threshold(disks.last().mount_point@) is Some {
            lemma_alert_pushed(
                t.1,
                disk_event(disks.last(), rule.threshold(disks.last().mount_point@)->0),
                pid,
            );
        }
    }
}

/// Whether two states of the conditions agree on a key.
spec fn agree(a: Episodes, b: Episodes, key: Key) -> bool {
    &&& a.active.contains_key(key) == b.active.contains_key(key)
    &&& a.active.contains_key(key) ==> a.active[key] == b.active[key]
    &&& a.last_alert.contains_key(key) == b.last_alert.contains_key(key)
    &&& a.last_alert.contains_key(key) ==> a.last_alert[key] == b.last_alert[key]
}

/// A condition of another key, whose alert is not on the processor use of
/// `pid`.
proof fn lemma_judged_apart(
    p: Progress,
    holds: bool,
    key: Key,
    now: Instant,
    cooldown: Duration,
    subject: AlertSubject,
    detail: AlertDetail,
    pid: u32,
)
    requires
        key != (pid, AlertKind::Cpu),
        !(detail is Cpu) || !(subject matches AlertSubject::Process { pid: other, .. } && other
            == pid),
    ensures
        ({
            let q = judged(p, holds, key, now, cooldown, subject, detail);
            &&& processor_alerts(q.events, pid) == processor_alerts(p.events, pid)
            &&& agree(q.episodes, p.episodes, (pid, AlertKind::Cpu))
        }),
{
    match decision(p.episodes, key, now, cooldown) {
        None => {},
        Some(notify) => {
            let e = AlertEvent { subject, detail, repeat_after: elapsed_of(notify) };
            lemma_alert_pushed(p.events, e, pid);
        },
    }
}

/// Applications leave the processor alerts of a process alone.
proof fn lemma_apps_apart(p: Progress, r: Round, groups: Seq<ProcessGroupSnapshot>, pid: u32)
    ensures
        processor_alerts(app_run(p, r, groups).events, pid) == processor_alerts(p.events, pid),
        agree(app_run(p, r, groups).episodes, p.episodes, (pid, AlertKind::Cpu)),
    decreases groups.len(),
{
    if groups.len() > 0 {
        lemma_apps_apart(p, r, groups.drop_last(), pid);
        let q = app_run(p, r, groups.drop_last());
        let g = groups.last();
        let stat = r.slow[g.root_pid];
        if r.active.app_cpu.threshold(g.name@) is Some {
            let percent = r.active.app_cpu.threshold(g.name@)->0;
            lemma_judged_apart(
                q,
                stat.cpu_avg >= percent,
                (g.root_pid, AlertKind::AppCpu),
                r.now,
                r.active.cooldown,
                app_subject(g),
                AlertDetail::Cpu {
                    avg_percent: stat.cpu_avg as u128,
                    threshold_percent: percent as u128,
                    window: span(SLOW_WINDOW_NANOS),
                    runaway: false,
                },
                pid,
            );
        }
        if bar_of(&r.active.app_memory, r.active.app_memory_ceiling, g.name@) is Some {
            let bar = bar_of(&r.active.app_memory, r.active.app_memory_ceiling, g.name@)->0;
            lemma_judged_apart(
                app_cpu_rule(q, r, g),
                reached(stat, r.total_memory, bar),
                (g.root_pid, AlertKind::AppMemory),
                r.now,
                r.active.cooldown,
                app_subject(g),
                memory_detail(stat, r.total_memory, bar, span(SLOW_WINDOW_NANOS)),
                pid,
            );
        }
    }
}

/// The memory rule leaves the processor alerts of a process alone.
proof fn lemma_memory_apart(p: Progress, r: Round, x: ProcessSnapshot, pid: u32)
    ensures
        processor_alerts(memory_rule(p, r, x).events, pid) == processor_alerts(p.events, pid),
        agree(memory_rule(p, r, x).episodes, p.episodes, (pid, AlertKind::Cpu)),
{
    let slow = r.slow[x.pid];
    if bar_of(&r.active.memory, r.active.memory_ceiling, x.name@) is Some {
        let bar = bar_of(&r.active.memory, r.active.memory_ceiling, x.name@)->0;
        lemma_judged_apart(
            p,
            reached(slow, r.total_memory, bar),
            (x.pid, AlertKind::Memory),
            r.now,
            r.active.cooldown,
            process_subject(x),
            memory_detail(slow, r.total_memory, bar, span(SLOW_WINDOW_NANOS)),
            pid,
        );
    }
}

/// What an alert on the processor use of a process tells.
pub open spec fn processor_detail(
    fast: ProcessStats,
    slow: ProcessStats,
    percent: u64,
    acute: bool,
) -> AlertDetail {
    if acute {
        AlertDetail::Cpu {
            avg_percent: fast.cpu_avg as u128,
            threshold_percent: (ACUTE_FACTOR * percent) as u128,
            window: span(WINDOW_NANOS),
            runaway: true,
        }
    } else {
        AlertDetail::Cpu {
            avg_percent: slow.cpu_avg as u128,
            threshold_percent: percent as u128,
            window: span(SLOW_WINDOW_NANOS),
            runaway: false,
        }
    }
}

/// Whether a process is a runaway: a minute's mean, over fifty seconds at least,
/// of a multiple of the threshold.
pub open spec fn acute(fast: ProcessStats, percent: u64) -> bool {
    fast.span.nanos >= MIN_SPAN_NANOS && fast.cpu_avg >= ACUTE_FACTOR * percent
}

/// Whether a process is busy for long: a mean of five minutes, over two hundred
/// and fifty seconds at least, of the threshold.
pub open spec fn chronic(slow: ProcessStats, percent: u64) -> bool {
    slow.span.nanos >= SLOW_MIN_SPAN_NANOS && slow.cpu_avg >= percent
}

/// The rules on another process leave the processor alerts of a process alone.
proof fn lemma_step_apart(p: Progress, r: Round, x: ProcessSnapshot, pid: u32)
    requires
        x.pid != pid,
    ensures
        processor_alerts(process_step(p, r, x).events, pid) == processor_alerts(p.events, pid),
        agree(process_step(p, r, x).episodes, p.episodes, (pid, AlertKind::Cpu)),
{
    lemma_memory_apart(cpu_rule(p, r, x), r, x, pid);
    let (fast, slow) = (r.fast[x.pid], r.slow[x.pid]);
    if r.active.cpu.threshold(x.name@) is Some {
        let percent = r.active.cpu.threshold(x.name@)->0;
        lemma_judged_apart(
            p,
            acute(fast, percent) || chronic(slow, percent),
            (x.pid, AlertKind::Cpu),
            r.now,
            r.active.cooldown,
            process_subject(x),
            processor_detail(fast, slow, percent, acute(fast, percent)),
            pid,
        );
    }
}

/// Processes of other pids.
proof fn lemma_run_apart(p: Progress, r: Round, processes: Seq<ProcessSnapshot>, pid: u32)
    requires
        forall|i: int| 0 <= i < processes.len() ==> (#[trigger] processes[i]).pid != pid,
    ensures
        processor_alerts(process_run(p, r, processes).events, pid) == processor_alerts(
            p.events,
            pid,
        ),
        agree(process_run(p, r, processes).episodes, p.episodes, (pid, AlertKind::Cpu)),
    decreases processes.len(),
{
    if processes.len() > 0 {
        assert(processes.last() == processes[processes.len() - 1]);
        lemma_run_apart(p, r, processes.drop_last(), pid);
        lemma_step_apart(process_run(p, r, processes.drop_last()), r, processes.last(), pid);
    }
}

/// The processor alert that a round owes a process: none without a threshold,
/// below both bars, or where its episode keeps it silent.
pub open spec fn alert_owed(s: Episodes, r: Round, x: ProcessSnapshot) -> Option<AlertEvent> {
    let (fast, slow) = (r.fast[x.pid], r.slow[x.pid]);
    match r.active.cpu.threshold(x.name@) {
        None => None,
        Some(percent) => if acute(fast, percent) || chronic(slow, percent) {
            match decision(s, (x.pid, AlertKind::Cpu), r.now, r.active.cooldown) {
                None => None,
                Some(notify) => Some(
                    AlertEvent {
                        subject: process_subject(x),
                        detail: processor_detail(fast, slow, percent, acute(fast, percent)),
                        repeat_after: elapsed_of(notify),
                    },
                ),
            }
        } else {
            None
        },
    }
}

/// The one process with a pid gets the alert that it is owed.
proof fn lemma_run_alerts(p: Progress, r: Round, processes: Seq<ProcessSnapshot>, i: int)
    requires
        0 <= i < processes.len(),
        forall|j: int|
            0 <= j < processes.len() && j != i ==> (#[trigger] processes[j]).pid
                != processes[i].pid,
    ensures
        processor_alerts(process_run(p, r, processes).events, processes[i].pid) == with_event(
            processor_alerts(p.events, processes[i].pid),
            alert_owed(p.episodes, r, processes[i]),
        ),
    decreases processes.len(),
{
    let before = processes.drop_last();
    let x = processes.last();
    let pid = processes[i].pid;
    let q = process_run(p, r, before);
    if i < before.len() {
        lemma_run_alerts(p, r, before, i);
        lemma_step_apart(q, r, x, pid);
    } else {
        lemma_run_apart(p, r, before, pid);
        lemma_memory_apart(cpu_rule(q, r, x), r, x, pid);
        if alert_owed(q.episodes, r, x) is Some {
            lemma_alert_pushed(q.events, alert_owed(q.episodes, r, x)->0, pid);
        }
    }
}

/// The rules before those on processes raise no processor alert of a process
/// and leave its episode alone.
proof fn lemma_before_processes(calls: Seq<Call>, pid: u32)
    requires
        calls.len() > 0,
    ensures
        processor_alerts(before_processes(calls).events, pid) == Seq::<AlertEvent>::empty(),
        before_processes(calls).records == Seq::<MetricRecord>::empty(),
        agree(
            before_processes(calls).state.episodes,
            after_calls(calls.drop_last()).episodes,
            (pid, AlertKind::Cpu),
        ),
{
    let call = calls.last();
    let (now, snapshot, active) = (call.now, call.snapshot, call.active);
    let s = after_calls(calls.drop_last());
    let first = machine_rules(s, now, snapshot, active);
    let disk = disk_rule(s.disarmed, &active.disk, snapshot.disks);
    if snapshot.disks is Some {
        let disks = snapshot.disks->0@;
        let armed = s.disarmed.filter(|m: Seq<char>| mounted(disks, m));
        lemma_disks_apart((armed, Seq::empty()), &active.disk, disks, pid);
    }
    let pressure = pressure_rule(s.pressure, now, active.pressure, snapshot);
    if pressure.event is Some {
        lemma_alert_pushed(disk.1, pressure.event->0, pid);
    }
    if snapshot.process_groups is Some && (active.app_cpu.enabled()
        || active.app_memory.enabled()) {
        let groups = snapshot.process_groups->0@;
        let stats = window_stats(first.state.apps, group_observations(groups), now);
        let round = Round {
            now,
            total_memory: snapshot.memory.total_bytes,
            timestamp: snapshot.timestamp,
            active,
            fast: Map::empty(),
            slow: stats,
            record_due: false,
        };
        let start = Progress {
            episodes: retained(first.state.episodes, true, stats),
            events: first.events,
            records: first.records,
        };
        lemma_apps_apart(start, round, groups, pid);
        lemma_apps_record_nothing(start, round, groups);
    }
}

/// A snapshot raises at most one alert on the processor use of a process. It
/// comes exactly if the process has a threshold, is a runaway over the last minute
/// or busy over the last five, and its episode does not keep it silent. It tells
/// the mean, the bar and the window of the tier that was reached, the runaway's
/// first. The means are those of the samples since the process was last absent.
pub proof fn law_processor_alert(calls: Seq<Call>, i: int)
    requires
        calls.len() > 0,
        in_time(calls),
        calls.last().snapshot.processes is Some,
        0 <= i < calls.last().snapshot.processes->0@.len(),
        forall|j: int|
            0 <= j < calls.last().snapshot.processes->0@.len() && j != i ==> (
            #[trigger] calls.last().snapshot.processes->0@[j]).pid
                != calls.last().snapshot.processes->0@[i].pid,
    ensures
        ({
            let call = calls.last();
            let x = call.snapshot.processes->0@[i];
            let fast = recent(calls, x.pid, WINDOW_NANOS);
            let slow = recent(calls, x.pid, SLOW_WINDOW_NANOS);
            let threshold = call.active.cpu.threshold(x.name@);
            let raised = processor_alerts(last_outcome(calls).events, x.pid);
            &&& raised.len() <= 1
            &&& raised.len() == 1 <==> threshold is Some && (acute(fast, threshold->0) || chronic(
                slow,
                threshold->0,
            )) && decision(
                after_calls(calls.drop_last()).episodes,
                (x.pid, AlertKind::Cpu),
                call.now,
                call.active.cooldown,
            ) is Some
            &&& raised.len() == 1 ==> raised[0].subject == process_subject(x) && raised[0].detail
                == processor_detail(fast, slow, threshold->0, acute(fast, threshold->0))
        }),
{
    let call = calls.last();
    let processes = call.snapshot.processes->0@;
    let x = processes[i];
    assert(observations(processes)[i].pid == x.pid);
    lemma_last_round(calls);
    lemma_before_processes(calls, x.pid);
    lemma_run_alerts(process_start(calls), last_round(calls), processes, i);
    assert(agree(
        process_start(calls).episodes,
        after_calls(calls.drop_last()).episodes,
        (x.pid, AlertKind::Cpu),
    ));
}

/// A process that is not in a snapshot gets no alert on its processor use.
pub proof fn law_absent_process_is_silent(calls: Seq<Call>, pid: u32)
    requires
        calls.len() > 0,
        in_time(calls),
        calls.last().snapshot.processes is Some ==> forall|j: int|
            0 <= j < calls.last().snapshot.processes->0@.len() ==> (
            #[trigger] calls.last().snapshot.processes->0@[j]).pid != pid,
    ensures
        processor_alerts(last_outcome(calls).events, pid).len() == 0,
{
    lemma_before_processes(calls, pid);
    if calls.last().snapshot.processes is Some {
        lemma_last_round(calls);
        lemma_run_apart(
            process_start(calls),
            last_round(calls),
            calls.last().snapshot.processes->0@,
            pid,
        );
    }
}

/// Whether a round that records has a place for a process: its last minute is
/// full enough, and its mean is at a base threshold, of the processor or of
/// memory, or it is among the five that spent the most processor time. The base
/// threshold of memory is a share, and also a number of bytes where one is given:
/// either is enough.
pub open spec fn noteworthy(calls: Seq<Call>, x: ProcessSnapshot) -> bool {
    let call = calls.last();
    let fast = recent(calls, x.pid, WINDOW_NANOS);
    let total = call.snapshot.memory.total_bytes;
    let cpu = call.active.cpu.default_value();
    let memory = call.active.memory.default_value();
    &&& fast.span.nanos >= MIN_SPAN_NANOS
    &&& {
        ||| cpu is Some && fast.cpu_avg >= cpu->0
        ||| memory is Some && total > 0 && {
            ||| share_reaches(
                measured_sum(fast),
                fast.samples as nat,
                total as nat,
                memory->0 as nat,
            )
            ||| call.active.memory_ceiling is Some && measured_sum(fast)
                >= call.active.memory_ceiling->0 * fast.samples
        }
        ||| top_spender(last_round(calls).fast, x.pid)
    }
}

/// The record of a process: the means of its last minute, and its processor
/// time since it began.
pub open spec fn minute_record(calls: Seq<Call>, x: ProcessSnapshot) -> MetricRecord {
    let snapshot = calls.last().snapshot;
    let fast = recent(calls, x.pid, WINDOW_NANOS);
    let total = snapshot.memory.total_bytes;
    MetricRecord {
        timestamp: snapshot.timestamp,
        pid: x.pid,
        name: x.name,
        display_name: x.display_name,
        cpu_avg_percent: fast.cpu_avg,
        memory_avg_bytes: fast.memory_avg_bytes,
        memory_share_percent: if total == 0 {
            0
        } else {
            share_of(fast.memory_sum_bytes as nat, fast.samples as nat, total as nat) as u128
        },
        memory_footprint_bytes: fast.footprint_avg_bytes,
        cpu_time_ms: x.cpu_time_ms,
    }
}

/// The records of the noteworthy ones among the processes, in their order.
pub open spec fn minute_records(calls: Seq<Call>, processes: Seq<ProcessSnapshot>) -> Seq<
    MetricRecord,
>
    decreases processes.len(),
{
    if processes.len() == 0 {
        Seq::empty()
    } else {
        let before = minute_records(calls, processes.drop_last());
        if noteworthy(calls, processes.last()) {
            before.push(minute_record(calls, processes.last()))
        } else {
            before
        }
    }
}

/// The records of some processes of the last call.
proof fn lemma_minute_records(calls: Seq<Call>, processes: Seq<ProcessSnapshot>)
    requires
        calls.len() > 0,
        calls.last().snapshot.processes is Some,
        forall|i: int|
            0 <= i < processes.len() ==> seen_pid(
                observations(calls.last().snapshot.processes->0@),
                (#[trigger] processes[i]).pid,
            ),
    ensures
        process_run(process_start(calls), last_round(calls), processes).records == if last_round(
            calls,
        ).record_due {
            minute_records(calls, processes)
        } else {
            Seq::empty()
        },
    decreases processes.len(),
{
    if processes.len() > 0 {
        let x = processes.last();
        assert(x == processes[processes.len() - 1]);
        lemma_minute_records(calls, processes.drop_last());
        let r = last_round(calls);
        assert(r.fast[x.pid] == recent(calls, x.pid, WINDOW_NANOS));
        assert(recorded(r, x) == (r.record_due && noteworthy(calls, x)));
        assert(record_of(r, x) == minute_record(calls, x));
    } else {
        lemma_before_processes(calls, 0);
    }
}

/// A snapshot less than a minute after the last recorded one records nothing. Any
/// other records exactly its noteworthy processes, in the order of its list;
/// thresholds of single names play no part.
pub proof fn law_records_of_a_snapshot(calls: Seq<Call>)
    requires
        calls.len() > 0,
        in_time(calls),
    ensures
        ({
            let call = calls.last();
            let records = last_outcome(calls).records;
            let due = recording_due(after_calls(calls.drop_last()).last_record, call.now);
            &&& call.snapshot.processes is None || !due ==> records.len() == 0
            &&& call.snapshot.processes is Some && due ==> records == minute_records(
                calls,
                call.snapshot.processes->0@,
            )
        }),
{
    let call = calls.last();
    lemma_before_processes(calls, 0);
    if call.snapshot.processes is Some {
        let processes = call.snapshot.processes->0@;
        let seen = observations(processes);
        assert forall|i: int| 0 <= i < processes.len() implies seen_pid(
            seen,
            (#[trigger] processes[i]).pid,
        ) by {
            assert(seen[i].pid == processes[i].pid);
        }
        lemma_last_round(calls);
        lemma_minute_records(calls, processes);
    }
}

} // verus!
