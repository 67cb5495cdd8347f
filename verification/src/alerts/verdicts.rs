//! What a snapshot alerts on, process by process and application by application.
use vstd::prelude::*;
use super::active::ActiveThresholds;
use super::engine::{
    app_cpu_rule, app_memory_rule, app_rules, app_run, app_subject, cpu_rule, group_observations,
    judged, machine_rules, memory_rule, process_run, process_subject, recording_due, span,
    window_stats, Outcome, Progress, Round,
};
use super::episode::{decision, elapsed_of, retained, Episodes, Key};
use super::event::{AlertDetail, AlertEvent, AlertKind, AlertSubject};
use super::machine::{alerts_where, lasted, lemma_machine_elsewhere, lemma_where_pushed};
use super::matcher::claims;
use super::memory::{bar_of, measured_sum, memory_detail, reached, Bar};
use super::runs::{after_calls, in_time, last_outcome, Call};
use super::thresholds::{law_deciding_entry, Thresholds};
use crate::averages::{
    added, after_sightings, averages_of, clock_runs_on, footprint_in, law_averages_over_a_run,
    no_older, since_absent, Sighting,
};
use crate::rolling::{observations, seen_pid, Observation, ProcessStats, Sample};
use crate::snapshot::{ProcessGroupSnapshot, ProcessSnapshot};
use crate::time::{Duration, Instant};

verus! {

/// What a call tells of processes.
pub open spec fn processes_seen(processes: Seq<ProcessSnapshot>) -> Seq<Observation> {
    Seq::new(
        processes.len(),
        |i: int|
            Observation {
                pid: processes[i].pid,
                cpu: processes[i].cpu_usage_percent,
                memory_bytes: processes[i].memory_bytes,
                footprint_bytes: processes[i].phys_footprint_bytes,
                cpu_time_ms: processes[i].cpu_time_ms,
            },
    )
}

/// What a call tells of applications, each under the pid of its root.
pub open spec fn apps_seen(groups: Seq<ProcessGroupSnapshot>) -> Seq<Observation> {
    Seq::new(
        groups.len(),
        |i: int|
            Observation {
                pid: groups[i].root_pid,
                cpu: groups[i].cpu_usage_percent,
                memory_bytes: groups[i].memory_bytes,
                footprint_bytes: groups[i].phys_footprint_bytes,
                cpu_time_ms: 0,
            },
    )
}

/// What the calls with a list of processes told of them.
pub open spec fn process_sightings(calls: Seq<Call>) -> Seq<Sighting>
    decreases calls.len(),
{
    if calls.len() == 0 {
        Seq::empty()
    } else {
        let before = process_sightings(calls.drop_last());
        match calls.last().snapshot.processes {
            None => before,
            Some(processes) => before.push(
                Sighting { now: calls.last().now, seen: processes_seen(processes@) },
            ),
        }
    }
}

/// Whether a call looks at applications: there is a list of them, and a rule on
/// them is on.
pub open spec fn looks_at_apps(call: Call) -> bool {
    call.snapshot.process_groups is Some && (call.active.app_cpu.enabled()
        || call.active.app_memory.enabled())
}

/// What the calls that look at applications told of them.
pub open spec fn app_sightings(calls: Seq<Call>) -> Seq<Sighting>
    decreases calls.len(),
{
    if calls.len() == 0 {
        Seq::empty()
    } else {
        let before = app_sightings(calls.drop_last());
        if looks_at_apps(calls.last()) {
            before.push(
                Sighting {
                    now: calls.last().now,
                    seen: apps_seen(calls.last().snapshot.process_groups->0@),
                },
            )
        } else {
            before
        }
    }
}

/// The windows of a run hold what was seen in it.
proof fn lemma_windows_hold(calls: Seq<Call>)
    ensures
        ({
            let s = after_calls(calls);
            &&& s.fast.window.nanos == 60_000_000_000
            &&& s.slow.window.nanos == 300_000_000_000
            &&& s.apps.window.nanos == 300_000_000_000
            &&& s.fast.history == after_sightings(process_sightings(calls), s.fast.window)
            &&& s.slow.history == after_sightings(process_sightings(calls), s.slow.window)
            &&& s.apps.history == after_sightings(app_sightings(calls), s.apps.window)
        }),
    decreases calls.len(),
{
    if calls.len() > 0 {
        let call = calls.last();
        let before = calls.drop_last();
        lemma_windows_hold(before);
        if call.snapshot.processes is Some {
            let processes = call.snapshot.processes->0@;
            assert(observations(processes) =~= processes_seen(processes));
            assert(process_sightings(calls).drop_last() =~= process_sightings(before));
        }
        if looks_at_apps(call) {
            let groups = call.snapshot.process_groups->0@;
            assert(group_observations(groups) =~= apps_seen(groups));
            assert(app_sightings(calls).drop_last() =~= app_sightings(before));
        }
    }
}

/// The clock of the sightings runs on as that of the calls.
pub(crate) proof fn lemma_clock(calls: Seq<Call>)
    requires
        in_time(calls),
    ensures
        clock_runs_on(process_sightings(calls)),
        clock_runs_on(app_sightings(calls)),
        process_sightings(calls).len() > 0 ==> calls.len() > 0 && process_sightings(
            calls,
        ).last().now.nanos <= calls.last().now.nanos,
        app_sightings(calls).len() > 0 ==> calls.len() > 0 && app_sightings(calls).last().now.nanos
            <= calls.last().now.nanos,
    decreases calls.len(),
{
    if calls.len() > 0 {
        let before = calls.drop_last();
        assert(in_time(before)) by {
            assert forall|i: int, j: int| 0 <= i <= j < before.len() implies (
            #[trigger] before[i]).now.nanos <= (#[trigger] before[j]).now.nanos by {
                assert(calls[i].now.nanos <= calls[j].now.nanos);
            }
        }
        lemma_clock(before);
        if before.len() > 0 {
            assert(before.last() == calls[before.len() - 1]);
            assert(calls[before.len() - 1].now.nanos <= calls[calls.len() - 1].now.nanos);
        }
        lemma_clock_pushed(process_sightings(before), process_sightings(calls));
        lemma_clock_pushed(app_sightings(before), app_sightings(calls));
    }
}

/// One sighting more, no earlier than the last.
proof fn lemma_clock_pushed(a: Seq<Sighting>, b: Seq<Sighting>)
    requires
        clock_runs_on(a),
        b == a || (b.len() == a.len() + 1 && b.drop_last() =~= a && (a.len() > 0
            ==> a.last().now.nanos <= b.last().now.nanos)),
    ensures
        clock_runs_on(b),
{
    if b != a {
        assert forall|i: int, j: int| 0 <= i <= j < b.len() implies (#[trigger] b[i]).now.nanos <= (
        #[trigger] b[j]).now.nanos by {
            if i < a.len() {
                assert(a[i] == b[i]);
                assert(a[i].now.nanos <= a[a.len() - 1].now.nanos);
                if j < a.len() {
                    assert(a[j] == b[j]);
                }
            }
        }
    }
}

/// Two averages of the same samples are the same.
proof fn lemma_same_averages(
    a: ProcessStats,
    b: ProcessStats,
    samples: Seq<Sample>,
    now: Instant,
)
    requires
        samples.len() > 0,
        averages_of(a, samples, now),
        averages_of(b, samples, now),
    ensures
        a == b,
{
    let n = samples.len() as int;
    lemma_same_mean(
        a.cpu_avg as int,
        b.cpu_avg as int,
        n,
        added(samples, |s: Sample| s.cpu as int),
    );
    lemma_same_mean(
        a.memory_avg_bytes as int,
        b.memory_avg_bytes as int,
        n,
        added(samples, |s: Sample| s.memory_bytes as int),
    );
    if a.footprint_avg_bytes is Some {
        lemma_same_mean(
            a.footprint_avg_bytes->0 as int,
            b.footprint_avg_bytes->0 as int,
            n,
            added(
                samples,
                |s: Sample| footprint_in(s),
            ),
        );
    }
}

/// A sum has one mean.
pub(crate) proof fn lemma_same_mean(a: int, b: int, n: int, sum: int)
    requires
        n > 0,
        a * n <= sum < (a + 1) * n,
        b * n <= sum < (b + 1) * n,
    ensures
        a == b,
{
    assert(a == b) by (nonlinear_arith)
        requires
            n > 0,
            a * n <= sum < (a + 1) * n,
            b * n <= sum < (b + 1) * n,
    ;
}

/// Whether an alert is on what a rule watches: the process or the application of
/// that pid, and its processor use or its memory.
pub open spec fn on_key(key: Key) -> spec_fn(AlertEvent) -> bool {
    |e: AlertEvent|
        {
            let app = key.1 == AlertKind::AppCpu || key.1 == AlertKind::AppMemory;
            let cpu = key.1 == AlertKind::Cpu || key.1 == AlertKind::AppCpu;
            let memory = key.1 == AlertKind::Memory || key.1 == AlertKind::AppMemory;
            &&& match e.subject {
                AlertSubject::Process { pid, .. } => !app && pid == key.0,
                AlertSubject::App { root_pid, .. } => app && root_pid == key.0,
                _ => false,
            }
            &&& match e.detail {
                AlertDetail::Cpu { .. } => cpu,
                AlertDetail::Memory { .. } => memory,
                _ => false,
            }
        }
}

/// What becomes of a condition. Where it begins to hold it raises an alert, unless
/// its last one was less than the cooldown ago. While it holds it raises one more,
/// half an hour after the first, which tells how long it has lasted. Where it does
/// not hold it ends. A rule that does not apply changes nothing.
pub open spec fn verdict(
    before: Episodes,
    after: Episodes,
    raised: Seq<AlertEvent>,
    key: Key,
    applies: bool,
    holds: bool,
    now: Instant,
    cooldown: Duration,
    subject: AlertSubject,
    told: spec_fn(AlertDetail) -> bool,
) -> bool {
    let open = before.active.contains_key(key);
    let cools = before.last_alert.contains_key(key) && lasted(now, before.last_alert[key])
        < cooldown.nanos;
    let begins = applies && holds && !open && !cools;
    let again = applies && holds && open && !before.active[key].reminded && lasted(
        now,
        before.active[key].started,
    ) >= 1_800_000_000_000;
    &&& raised.len() == if begins || again {
        1nat
    } else {
        0
    }
    &&& begins || again ==> raised[0].subject == subject && told(raised[0].detail)
    &&& begins ==> raised[0].repeat_after is None
    &&& again ==> raised[0].repeat_after == Some(
        Duration { nanos: lasted(now, before.active[key].started) as u128 },
    )
    &&& after.active.contains_key(key) <==> begins || (open && (!applies || holds))
    &&& begins ==> after.active[key].started == now && !after.active[key].reminded
    &&& again ==> after.active[key].started == before.active[key].started
        && after.active[key].reminded
    &&& open && !again && after.active.contains_key(key) ==> after.active[key]
        == before.active[key]
    &&& after.last_alert.contains_key(key) <==> begins || again
        || before.last_alert.contains_key(key)
    &&& begins || again ==> after.last_alert[key] == now
    &&& !(begins || again) && before.last_alert.contains_key(key) ==> after.last_alert[key]
        == before.last_alert[key]
}

/// Whether two states of the conditions agree on a key.
pub open spec fn same_for(a: Episodes, b: Episodes, key: Key) -> bool {
    &&& a.active.contains_key(key) == b.active.contains_key(key)
    &&& a.active.contains_key(key) ==> a.active[key] == b.active[key]
    &&& a.last_alert.contains_key(key) == b.last_alert.contains_key(key)
    &&& a.last_alert.contains_key(key) ==> a.last_alert[key] == b.last_alert[key]
}

/// One condition, judged.
proof fn lemma_verdict(
    p: Progress,
    holds: bool,
    key: Key,
    now: Instant,
    cooldown: Duration,
    subject: AlertSubject,
    detail: AlertDetail,
    told: spec_fn(AlertDetail) -> bool,
)
    requires
        forall|r: Option<Duration>| #[trigger]
            on_key(key)(AlertEvent { subject, detail, repeat_after: r }),
        holds ==> told(detail),
        alerts_where(p.events, on_key(key)) == Seq::<AlertEvent>::empty(),
    ensures
        ({
            let q = judged(p, holds, key, now, cooldown, subject, detail);
            verdict(
                p.episodes,
                q.episodes,
                alerts_where(q.events, on_key(key)),
                key,
                true,
                holds,
                now,
                cooldown,
                subject,
                told,
            )
        }),
{
    match decision(p.episodes, key, now, cooldown) {
        None => {},
        Some(notify) => {
            let e = AlertEvent { subject, detail, repeat_after: elapsed_of(notify) };
            lemma_where_pushed(p.events, e, on_key(key));
            assert(on_key(key)(e));
        },
    }
}

/// One condition, as another key sees it.
proof fn lemma_other_key(
    p: Progress,
    holds: bool,
    key: Key,
    now: Instant,
    cooldown: Duration,
    subject: AlertSubject,
    detail: AlertDetail,
    other: Key,
)
    requires
        key != other,
        forall|r: Option<Duration>| !#[trigger] on_key(other)(
            AlertEvent { subject, detail, repeat_after: r },
        ),
    ensures
        ({
            let q = judged(p, holds, key, now, cooldown, subject, detail);
            &&& alerts_where(q.events, on_key(other)) == alerts_where(p.events, on_key(other))
            &&& same_for(q.episodes, p.episodes, other)
        }),
{
    match decision(p.episodes, key, now, cooldown) {
        None => {},
        Some(notify) => {
            let e = AlertEvent { subject, detail, repeat_after: elapsed_of(notify) };
            lemma_where_pushed(p.events, e, on_key(other));
            assert(!on_key(other)(e));
        },
    }
}

/// Whether a process is a runaway: over the last minute, of which fifty seconds at
/// least are known, its mean is three times its threshold or more.
pub open spec fn runs_away(minute: ProcessStats, percent: u64) -> bool {
    minute.span.nanos >= 50_000_000_000 && minute.cpu_avg >= 3 * percent
}

/// Whether a process is busy for long: over the last five minutes, of which two
/// hundred and fifty seconds at least are known, its mean is its threshold or more.
pub open spec fn stays_busy(five: ProcessStats, percent: u64) -> bool {
    five.span.nanos >= 250_000_000_000 && five.cpu_avg >= percent
}

/// What an alert on the processor use of a process tells.
pub open spec fn tells_processor(
    minute: ProcessStats,
    five: ProcessStats,
    percent: u64,
) -> spec_fn(AlertDetail) -> bool {
    |d: AlertDetail|
        match d {
            AlertDetail::Cpu { avg_percent, threshold_percent, window, runaway } => {
                &&& runaway == runs_away(minute, percent)
                &&& runaway ==> avg_percent == minute.cpu_avg && threshold_percent == 3 * percent
                    && window.nanos == 60_000_000_000
                &&& !runaway ==> avg_percent == five.cpu_avg && threshold_percent == percent
                    && window.nanos == 300_000_000_000
            },
            _ => false,
        }
}

/// What an alert on the processor use of an application tells.
pub open spec fn tells_app_processor(five: ProcessStats, percent: u64) -> spec_fn(
    AlertDetail,
) -> bool {
    |d: AlertDetail|
        match d {
            AlertDetail::Cpu { avg_percent, threshold_percent, window, runaway } => {
                &&& avg_percent == five.cpu_avg
                &&& threshold_percent == percent
                &&& window.nanos == 300_000_000_000
                &&& !runaway
            },
            _ => false,
        }
}

/// Whether a name has a value of its own in a rule.
pub open spec fn has_own(t: Thresholds<u64>, name: Seq<char>) -> bool {
    ||| exists|j: int| 0 <= j < t.user().len() && claims((#[trigger] t.user()[j]).0, name)
    ||| exists|j: int|
        0 <= j < t.templated().len() && claims((#[trigger] t.templated()[j]).0, name)
}

/// The number of bytes that is enough for a name: none for a name with a value of
/// its own.
pub open spec fn enough_bytes(
    t: Thresholds<u64>,
    ceiling: Option<u64>,
    name: Seq<char>,
) -> Option<u64> {
    if has_own(t, name) {
        None
    } else {
        ceiling
    }
}

/// The memory of all samples: the footprints, where each has one, else the
/// resident memory.
pub open spec fn memory_in(five: ProcessStats) -> int {
    match five.footprint_sum_bytes {
        Some(sum) => sum as int,
        None => five.memory_sum_bytes as int,
    }
}

/// Whether the mean memory is the percentage of all memory, or the number of
/// bytes, or more.
pub open spec fn is_large(
    five: ProcessStats,
    total: u64,
    percent: u64,
    enough: Option<u64>,
) -> bool {
    ||| memory_in(five) * 100_000_000 >= percent * total * five.samples
    ||| enough is Some && memory_in(five) >= enough->0 * five.samples
}

/// What an alert on memory tells: the mean, its share of all memory, and the lower
/// of the two bars, in bytes and as a share. All are rounded down.
pub open spec fn tells_memory(
    five: ProcessStats,
    total: u64,
    percent: u64,
    enough: Option<u64>,
) -> spec_fn(AlertDetail) -> bool {
    |d: AlertDetail|
        match d {
            AlertDetail::Memory {
                avg_bytes,
                share_percent,
                threshold_bytes,
                threshold_percent,
                window,
            } => {
                let lower = enough is Some && enough->0 * 100_000_000 < percent * total;
                let n = five.samples as int;
                &&& avg_bytes * n <= memory_in(five) < (avg_bytes + 1) * n
                &&& share_percent * (n * total) <= memory_in(five) * 100_000_000 < (share_percent
                    + 1) * (n * total)
                &&& lower ==> threshold_bytes == enough->0 && threshold_percent * total
                    <= enough->0 * 100_000_000 < (threshold_percent + 1) * total
                &&& !lower ==> threshold_percent == percent && threshold_bytes * 100_000_000
                    <= percent * total < (threshold_bytes + 1) * 100_000_000
                &&& window.nanos == 300_000_000_000
            },
            _ => false,
        }
}

/// Whether the means are those of the sums over at least one sample.
pub open spec fn sound(five: ProcessStats) -> bool {
    let n = five.samples as int;
    &&& n > 0
    &&& five.memory_avg_bytes * n <= five.memory_sum_bytes < (five.memory_avg_bytes + 1) * n
    &&& five.footprint_sum_bytes is Some == five.footprint_avg_bytes is Some
    &&& five.footprint_sum_bytes is Some ==> five.footprint_avg_bytes->0 * n
        <= five.footprint_sum_bytes->0 < (five.footprint_avg_bytes->0 + 1) * n
}

/// The averages of samples are sound.
proof fn lemma_sound(stats: ProcessStats, samples: Seq<Sample>, now: Instant)
    requires
        samples.len() > 0,
        averages_of(stats, samples, now),
    ensures
        sound(stats),
{
}

/// The figures of a memory alert.
proof fn lemma_memory_told(five: ProcessStats, total: u64, bar: Bar)
    requires
        sound(five),
        total > 0,
    ensures
        tells_memory(five, total, bar.percent, bar.ceiling)(
            memory_detail(five, total, bar, span(300_000_000_000)),
        ),
{
    let n = five.samples as int;
    let sum = memory_in(five);
    let t = total as int;
    let mean = if five.footprint_avg_bytes is Some {
        five.footprint_avg_bytes->0 as int
    } else {
        five.memory_avg_bytes as int
    };
    assert(mean * n <= sum < (mean + 1) * n);
    assert(0 <= sum <= 0x1_0000_0000_0000_0000 * n) by (nonlinear_arith)
        requires
            0 <= mean < 0x1_0000_0000_0000_0000,
            n > 0,
            mean * n <= sum < (mean + 1) * n,
    ;
    lemma_floor(sum * 100_000_000, n * t, 0x1_0000_0000_0000_0000int * 100_000_000, n, t);
    if bar.ceiling is Some {
        lemma_floor_small(bar.ceiling->0 * 100_000_000, t);
    }
    assert(0 <= bar.percent * total <= u64::MAX * u64::MAX) by (nonlinear_arith)
        requires
            0 <= bar.percent <= u64::MAX,
            0 <= total <= u64::MAX,
    ;
    lemma_floor_small(bar.percent * total, 100_000_000);
    assert(memory_in(five) as nat == measured_sum(five));
}

/// A quotient rounded down, of a dividend of no more than `most` times `n`, by `n`
/// times `t`.
pub(crate) proof fn lemma_floor(a: int, b: int, most: int, n: int, t: int)
    requires
        n > 0,
        t > 0,
        b == n * t,
        0 <= a <= most * n,
        0 <= most <= u128::MAX,
    ensures
        b > 0,
        0 <= a / b <= u128::MAX,
        (a / b) * b <= a < (a / b + 1) * b,
{
    assert(b >= n) by (nonlinear_arith)
        requires
            n > 0,
            t > 0,
            b == n * t,
    ;
    assert((a / b) * b <= a < (a / b + 1) * b && 0 <= a / b) by (nonlinear_arith)
        requires
            b > 0,
            a >= 0,
    ;
    let q = a / b;
    assert(q <= most) by (nonlinear_arith)
        requires
            q * b <= a,
            a <= most * n,
            b >= n,
            n > 0,
            q >= 0,
            most >= 0,
    ;
}

/// A quotient rounded down.
proof fn lemma_floor_small(a: int, b: int)
    requires
        b > 0,
        0 <= a <= u128::MAX,
    ensures
        0 <= a / b <= u128::MAX,
        (a / b) * b <= a < (a / b + 1) * b,
{
    assert((a / b) * b <= a < (a / b + 1) * b && 0 <= a / b <= a) by (nonlinear_arith)
        requires
            b > 0,
            a >= 0,
    ;
}

/// The bar of a name.
proof fn lemma_bar(t: &Thresholds<u64>, ceiling: Option<u64>, name: Seq<char>)
    ensures
        bar_of(t, ceiling, name) == match t.threshold(name) {
            None => None,
            Some(percent) => Some(Bar { percent, ceiling: enough_bytes(*t, ceiling, name) }),
        },
{
    law_deciding_entry(t.user(), name);
    law_deciding_entry(t.templated(), name);
}

/// Whether a rule applies to a process: it has a threshold, and for memory the
/// machine's is known and the last five minutes are known well enough.
pub open spec fn process_applies(
    active: ActiveThresholds,
    kind: AlertKind,
    five: ProcessStats,
    total: u64,
    name: Seq<char>,
) -> bool {
    if kind == AlertKind::Cpu {
        active.cpu.threshold(name) is Some
    } else {
        active.memory.threshold(name) is Some && total > 0 && five.span.nanos >= 250_000_000_000
    }
}

/// Whether a rule's condition holds of a process.
pub open spec fn process_holds(
    active: ActiveThresholds,
    kind: AlertKind,
    minute: ProcessStats,
    five: ProcessStats,
    total: u64,
    name: Seq<char>,
) -> bool {
    if kind == AlertKind::Cpu {
        let percent = active.cpu.threshold(name)->0;
        runs_away(minute, percent) || stays_busy(five, percent)
    } else {
        is_large(
            five,
            total,
            active.memory.threshold(name)->0,
            enough_bytes(active.memory, active.memory_ceiling, name),
        )
    }
}

/// What an alert on a process tells.
pub open spec fn process_tells(
    active: ActiveThresholds,
    kind: AlertKind,
    minute: ProcessStats,
    five: ProcessStats,
    total: u64,
    name: Seq<char>,
) -> spec_fn(AlertDetail) -> bool {
    if kind == AlertKind::Cpu {
        tells_processor(minute, five, active.cpu.threshold(name)->0)
    } else {
        tells_memory(
            five,
            total,
            active.memory.threshold(name)->0,
            enough_bytes(active.memory, active.memory_ceiling, name),
        )
    }
}

/// Whether a rule applies to an application: it has a threshold, the last five
/// minutes are known well enough, and for memory the machine's is known.
pub open spec fn app_applies(
    active: ActiveThresholds,
    kind: AlertKind,
    five: ProcessStats,
    total: u64,
    name: Seq<char>,
) -> bool {
    five.span.nanos >= 250_000_000_000 && if kind == AlertKind::AppCpu {
        active.app_cpu.threshold(name) is Some
    } else {
        active.app_memory.threshold(name) is Some && total > 0
    }
}

/// Whether a rule's condition holds of an application.
pub open spec fn app_holds(
    active: ActiveThresholds,
    kind: AlertKind,
    five: ProcessStats,
    total: u64,
    name: Seq<char>,
) -> bool {
    if kind == AlertKind::AppCpu {
        five.cpu_avg >= active.app_cpu.threshold(name)->0
    } else {
        is_large(
            five,
            total,
            active.app_memory.threshold(name)->0,
            enough_bytes(active.app_memory, active.app_memory_ceiling, name),
        )
    }
}

/// What an alert on an application tells.
pub open spec fn app_tells(
    active: ActiveThresholds,
    kind: AlertKind,
    five: ProcessStats,
    total: u64,
    name: Seq<char>,
) -> spec_fn(AlertDetail) -> bool {
    if kind == AlertKind::AppCpu {
        tells_app_processor(five, active.app_cpu.threshold(name)->0)
    } else {
        tells_memory(
            five,
            total,
            active.app_memory.threshold(name)->0,
            enough_bytes(active.app_memory, active.app_memory_ceiling, name),
        )
    }
}

/// The processor rule on a process.
proof fn lemma_cpu_rule(p: Progress, r: Round, x: ProcessSnapshot, key: Key)
    ensures
        ({
            let q = cpu_rule(p, r, x);
            let (minute, five) = (r.fast[x.pid], r.slow[x.pid]);
            let (total, name) = (r.total_memory, x.name@);
            &&& key != (x.pid, AlertKind::Cpu) ==> alerts_where(q.events, on_key(key))
                == alerts_where(p.events, on_key(key)) && same_for(q.episodes, p.episodes, key)
            &&& key == (x.pid, AlertKind::Cpu) && alerts_where(p.events, on_key(key)) == Seq::<
                AlertEvent,
            >::empty() ==> verdict(
                p.episodes,
                q.episodes,
                alerts_where(q.events, on_key(key)),
                key,
                process_applies(r.active, key.1, five, total, name),
                process_holds(r.active, key.1, minute, five, total, name),
                r.now,
                r.active.cooldown,
                process_subject(x),
                process_tells(r.active, key.1, minute, five, total, name),
            )
        }),
{
    let (minute, five) = (r.fast[x.pid], r.slow[x.pid]);
    let (total, name) = (r.total_memory, x.name@);
    if r.active.cpu.threshold(name) is Some {
        let percent = r.active.cpu.threshold(name)->0;
        let holds = runs_away(minute, percent) || stays_busy(five, percent);
        let detail = if runs_away(minute, percent) {
            AlertDetail::Cpu {
                avg_percent: minute.cpu_avg as u128,
                threshold_percent: (3 * percent) as u128,
                window: span(60_000_000_000),
                runaway: true,
            }
        } else {
            AlertDetail::Cpu {
                avg_percent: five.cpu_avg as u128,
                threshold_percent: percent as u128,
                window: span(300_000_000_000),
                runaway: false,
            }
        };
        let mine: Key = (x.pid, AlertKind::Cpu);
        assert(cpu_rule(p, r, x) == judged(
            p,
            holds,
            mine,
            r.now,
            r.active.cooldown,
            process_subject(x),
            detail,
        ));
        if key == mine {
            if alerts_where(p.events, on_key(key)) == Seq::<AlertEvent>::empty() {
                lemma_verdict(
                    p,
                    holds,
                    mine,
                    r.now,
                    r.active.cooldown,
                    process_subject(x),
                    detail,
                    tells_processor(minute, five, percent),
                );
            }
        } else {
            lemma_other_key(
                p,
                holds,
                mine,
                r.now,
                r.active.cooldown,
                process_subject(x),
                detail,
                key,
            );
        }
    }
}

/// The memory rule on a process.
proof fn lemma_memory_rule(p: Progress, r: Round, x: ProcessSnapshot, key: Key)
    requires
        key == (x.pid, AlertKind::Memory) ==> sound(r.slow[x.pid]),
    ensures
        ({
            let q = memory_rule(p, r, x);
            let (minute, five) = (r.fast[x.pid], r.slow[x.pid]);
            let (total, name) = (r.total_memory, x.name@);
            &&& key != (x.pid, AlertKind::Memory) ==> alerts_where(q.events, on_key(key))
                == alerts_where(p.events, on_key(key)) && same_for(q.episodes, p.episodes, key)
            &&& key == (x.pid, AlertKind::Memory) && alerts_where(p.events, on_key(key)) == Seq::<
                AlertEvent,
            >::empty() ==> verdict(
                p.episodes,
                q.episodes,
                alerts_where(q.events, on_key(key)),
                key,
                process_applies(r.active, key.1, five, total, name),
                process_holds(r.active, key.1, minute, five, total, name),
                r.now,
                r.active.cooldown,
                process_subject(x),
                process_tells(r.active, key.1, minute, five, total, name),
            )
        }),
{
    let five = r.slow[x.pid];
    let (total, name) = (r.total_memory, x.name@);
    lemma_bar(&r.active.memory, r.active.memory_ceiling, name);
    let bar = bar_of(&r.active.memory, r.active.memory_ceiling, name);
    if bar is Some && total > 0 && five.span.nanos >= 250_000_000_000 {
        let holds = is_large(five, total, bar->0.percent, bar->0.ceiling);
        let detail = memory_detail(five, total, bar->0, span(300_000_000_000));
        let mine: Key = (x.pid, AlertKind::Memory);
        assert(reached(five, total, bar->0) == holds);
        assert(memory_rule(p, r, x) == judged(
            p,
            holds,
            mine,
            r.now,
            r.active.cooldown,
            process_subject(x),
            detail,
        ));
        if key == mine {
            lemma_memory_told(five, total, bar->0);
            if alerts_where(p.events, on_key(key)) == Seq::<AlertEvent>::empty() {
                lemma_verdict(
                    p,
                    holds,
                    mine,
                    r.now,
                    r.active.cooldown,
                    process_subject(x),
                    detail,
                    tells_memory(five, total, bar->0.percent, bar->0.ceiling),
                );
            }
        } else {
            lemma_other_key(
                p,
                holds,
                mine,
                r.now,
                r.active.cooldown,
                process_subject(x),
                detail,
                key,
            );
        }
    }
}

/// Other processes leave a key alone.
proof fn lemma_processes_apart(p: Progress, r: Round, processes: Seq<ProcessSnapshot>, key: Key)
    requires
        forall|j: int|
            0 <= j < processes.len() ==> (#[trigger] processes[j]).pid != key.0 || key.1
                == AlertKind::AppCpu || key.1 == AlertKind::AppMemory,
    ensures
        ({
            let q = process_run(p, r, processes);
            &&& alerts_where(q.events, on_key(key)) == alerts_where(p.events, on_key(key))
            &&& same_for(q.episodes, p.episodes, key)
        }),
    decreases processes.len(),
{
    if processes.len() > 0 {
        let rest = processes.drop_last();
        let x = processes.last();
        assert(x == processes[processes.len() - 1]);
        assert forall|j: int| 0 <= j < rest.len() implies (#[trigger] rest[j]).pid != key.0
            || key.1 == AlertKind::AppCpu || key.1 == AlertKind::AppMemory by {
            assert(rest[j] == processes[j]);
        }
        lemma_processes_apart(p, r, rest, key);
        let q = process_run(p, r, rest);
        lemma_cpu_rule(q, r, x, key);
        lemma_memory_rule(cpu_rule(q, r, x), r, x, key);
    }
}

/// The one process of a pid gets its verdict.
proof fn lemma_process_among(
    p: Progress,
    r: Round,
    processes: Seq<ProcessSnapshot>,
    i: int,
    kind: AlertKind,
)
    requires
        kind == AlertKind::Cpu || kind == AlertKind::Memory,
        0 <= i < processes.len(),
        forall|j: int|
            0 <= j < processes.len() && j != i ==> (#[trigger] processes[j]).pid
                != processes[i].pid,
        alerts_where(p.events, on_key((processes[i].pid, kind))) == Seq::<AlertEvent>::empty(),
        sound(r.slow[processes[i].pid]),
    ensures
        ({
            let x = processes[i];
            let key = (x.pid, kind);
            let q = process_run(p, r, processes);
            let (minute, five) = (r.fast[x.pid], r.slow[x.pid]);
            let (total, name) = (r.total_memory, x.name@);
            verdict(
                p.episodes,
                q.episodes,
                alerts_where(q.events, on_key(key)),
                key,
                process_applies(r.active, kind, five, total, name),
                process_holds(r.active, kind, minute, five, total, name),
                r.now,
                r.active.cooldown,
                process_subject(x),
                process_tells(r.active, kind, minute, five, total, name),
            )
        }),
    decreases processes.len(),
{
    let rest = processes.drop_last();
    let last = processes.last();
    let key = (processes[i].pid, kind);
    assert forall|j: int| 0 <= j < rest.len() && j != i implies (#[trigger] rest[j]).pid
        != processes[i].pid by {
        assert(rest[j] == processes[j]);
    }
    let q = process_run(p, r, rest);
    if i < rest.len() {
        assert(rest[i] == processes[i]);
        assert(last == processes[processes.len() - 1]);
        lemma_process_among(p, r, rest, i, kind);
    } else {
        lemma_processes_apart(p, r, rest, key);
    }
    lemma_cpu_rule(q, r, last, key);
    lemma_memory_rule(cpu_rule(q, r, last), r, last, key);
}

/// The processor rule on an application.
proof fn lemma_app_cpu_rule(p: Progress, r: Round, g: ProcessGroupSnapshot, key: Key)
    requires
        r.slow[g.root_pid].span.nanos >= 250_000_000_000,
    ensures
        ({
            let q = app_cpu_rule(p, r, g);
            let five = r.slow[g.root_pid];
            let (total, name) = (r.total_memory, g.name@);
            &&& key != (g.root_pid, AlertKind::AppCpu) ==> alerts_where(q.events, on_key(key))
                == alerts_where(p.events, on_key(key)) && same_for(q.episodes, p.episodes, key)
            &&& key == (g.root_pid, AlertKind::AppCpu) && alerts_where(p.events, on_key(key))
                == Seq::<AlertEvent>::empty() ==> verdict(
                p.episodes,
                q.episodes,
                alerts_where(q.events, on_key(key)),
                key,
                app_applies(r.active, key.1, five, total, name),
                app_holds(r.active, key.1, five, total, name),
                r.now,
                r.active.cooldown,
                app_subject(g),
                app_tells(r.active, key.1, five, total, name),
            )
        }),
{
    let five = r.slow[g.root_pid];
    let name = g.name@;
    if r.active.app_cpu.threshold(name) is Some {
        let percent = r.active.app_cpu.threshold(name)->0;
        let holds = five.cpu_avg >= percent;
        let detail = AlertDetail::Cpu {
            avg_percent: five.cpu_avg as u128,
            threshold_percent: percent as u128,
            window: span(300_000_000_000),
            runaway: false,
        };
        let mine: Key = (g.root_pid, AlertKind::AppCpu);
        assert(app_cpu_rule(p, r, g) == judged(
            p,
            holds,
            mine,
            r.now,
            r.active.cooldown,
            app_subject(g),
            detail,
        ));
        if key == mine {
            if alerts_where(p.events, on_key(key)) == Seq::<AlertEvent>::empty() {
                lemma_verdict(
                    p,
                    holds,
                    mine,
                    r.now,
                    r.active.cooldown,
                    app_subject(g),
                    detail,
                    tells_app_processor(five, percent),
                );
            }
        } else {
            lemma_other_key(
                p,
                holds,
                mine,
                r.now,
                r.active.cooldown,
                app_subject(g),
                detail,
                key,
            );
        }
    }
}

/// The memory rule on an application.
proof fn lemma_app_memory_rule(p: Progress, r: Round, g: ProcessGroupSnapshot, key: Key)
    requires
        r.slow[g.root_pid].span.nanos >= 250_000_000_000,
        key == (g.root_pid, AlertKind::AppMemory) ==> sound(r.slow[g.root_pid]),
    ensures
        ({
            let q = app_memory_rule(p, r, g);
            let five = r.slow[g.root_pid];
            let (total, name) = (r.total_memory, g.name@);
            &&& key != (g.root_pid, AlertKind::AppMemory) ==> alerts_where(q.events, on_key(key))
                == alerts_where(p.events, on_key(key)) && same_for(q.episodes, p.episodes, key)
            &&& key == (g.root_pid, AlertKind::AppMemory) && alerts_where(p.events, on_key(key))
                == Seq::<AlertEvent>::empty() ==> verdict(
                p.episodes,
                q.episodes,
                alerts_where(q.events, on_key(key)),
                key,
                app_applies(r.active, key.1, five, total, name),
                app_holds(r.active, key.1, five, total, name),
                r.now,
                r.active.cooldown,
                app_subject(g),
                app_tells(r.active, key.1, five, total, name),
            )
        }),
{
    let five = r.slow[g.root_pid];
    let (total, name) = (r.total_memory, g.name@);
    lemma_bar(&r.active.app_memory, r.active.app_memory_ceiling, name);
    let bar = bar_of(&r.active.app_memory, r.active.app_memory_ceiling, name);
    if bar is Some && total > 0 {
        let holds = is_large(five, total, bar->0.percent, bar->0.ceiling);
        let detail = memory_detail(five, total, bar->0, span(300_000_000_000));
        let mine: Key = (g.root_pid, AlertKind::AppMemory);
        assert(reached(five, total, bar->0) == holds);
        assert(app_memory_rule(p, r, g) == judged(
            p,
            holds,
            mine,
            r.now,
            r.active.cooldown,
            app_subject(g),
            detail,
        ));
        if key == mine {
            lemma_memory_told(five, total, bar->0);
            if alerts_where(p.events, on_key(key)) == Seq::<AlertEvent>::empty() {
                lemma_verdict(
                    p,
                    holds,
                    mine,
                    r.now,
                    r.active.cooldown,
                    app_subject(g),
                    detail,
                    tells_memory(five, total, bar->0.percent, bar->0.ceiling),
                );
            }
        } else {
            lemma_other_key(
                p,
                holds,
                mine,
                r.now,
                r.active.cooldown,
                app_subject(g),
                detail,
                key,
            );
        }
    }
}

/// Other applications leave a key alone.
proof fn lemma_apps_apart(p: Progress, r: Round, groups: Seq<ProcessGroupSnapshot>, key: Key)
    requires
        forall|j: int|
            0 <= j < groups.len() ==> (#[trigger] groups[j]).root_pid != key.0 || key.1
                == AlertKind::Cpu || key.1 == AlertKind::Memory,
    ensures
        ({
            let q = app_run(p, r, groups);
            &&& alerts_where(q.events, on_key(key)) == alerts_where(p.events, on_key(key))
            &&& same_for(q.episodes, p.episodes, key)
        }),
    decreases groups.len(),
{
    if groups.len() > 0 {
        let rest = groups.drop_last();
        let g = groups.last();
        assert(g == groups[groups.len() - 1]);
        assert forall|j: int| 0 <= j < rest.len() implies (#[trigger] rest[j]).root_pid != key.0
            || key.1 == AlertKind::Cpu || key.1 == AlertKind::Memory by {
            assert(rest[j] == groups[j]);
        }
        lemma_apps_apart(p, r, rest, key);
        let q = app_run(p, r, rest);
        if r.slow[g.root_pid].span.nanos >= 250_000_000_000 {
            lemma_app_cpu_rule(q, r, g, key);
            lemma_app_memory_rule(app_cpu_rule(q, r, g), r, g, key);
        }
    }
}

/// The one application of a root gets its verdict.
proof fn lemma_app_among(
    p: Progress,
    r: Round,
    groups: Seq<ProcessGroupSnapshot>,
    i: int,
    kind: AlertKind,
)
    requires
        kind == AlertKind::AppCpu || kind == AlertKind::AppMemory,
        0 <= i < groups.len(),
        forall|j: int|
            0 <= j < groups.len() && j != i ==> (#[trigger] groups[j]).root_pid
                != groups[i].root_pid,
        alerts_where(p.events, on_key((groups[i].root_pid, kind))) == Seq::<AlertEvent>::empty(),
        sound(r.slow[groups[i].root_pid]),
    ensures
        ({
            let g = groups[i];
            let key = (g.root_pid, kind);
            let q = app_run(p, r, groups);
            let five = r.slow[g.root_pid];
            let (total, name) = (r.total_memory, g.name@);
            verdict(
                p.episodes,
                q.episodes,
                alerts_where(q.events, on_key(key)),
                key,
                app_applies(r.active, kind, five, total, name),
                app_holds(r.active, kind, five, total, name),
                r.now,
                r.active.cooldown,
                app_subject(g),
                app_tells(r.active, kind, five, total, name),
            )
        }),
    decreases groups.len(),
{
    let rest = groups.drop_last();
    let last = groups.last();
    let key = (groups[i].root_pid, kind);
    assert forall|j: int| 0 <= j < rest.len() && j != i implies (#[trigger] rest[j]).root_pid
        != groups[i].root_pid by {
        assert(rest[j] == groups[j]);
    }
    let q = app_run(p, r, rest);
    if i < rest.len() {
        assert(rest[i] == groups[i]);
        assert(last == groups[groups.len() - 1]);
        lemma_app_among(p, r, rest, i, kind);
    } else {
        lemma_apps_apart(p, r, rest, key);
    }
    if r.slow[last.root_pid].span.nanos >= 250_000_000_000 {
        lemma_app_cpu_rule(q, r, last, key);
        lemma_app_memory_rule(app_cpu_rule(q, r, last), r, last, key);
    }
}

/// The rules on volumes, pressure and applications in the last of the calls.
spec fn before_processes(calls: Seq<Call>) -> Outcome {
    let call = calls.last();
    app_rules(
        machine_rules(after_calls(calls.drop_last()), call.now, call.snapshot, call.active),
        call.now,
        call.snapshot,
        call.active,
    )
}

/// What the rules on applications look at in the last of the calls.
spec fn app_round(calls: Seq<Call>) -> Round {
    let call = calls.last();
    let s = after_calls(calls.drop_last());
    Round {
        now: call.now,
        total_memory: call.snapshot.memory.total_bytes,
        timestamp: call.snapshot.timestamp,
        active: call.active,
        fast: Map::empty(),
        slow: window_stats(
            s.apps,
            group_observations(call.snapshot.process_groups->0@),
            call.now,
        ),
        record_due: false,
    }
}

/// Where the applications of the last of the calls start from.
spec fn app_start(calls: Seq<Call>) -> Progress {
    let call = calls.last();
    let s = after_calls(calls.drop_last());
    let first = machine_rules(s, call.now, call.snapshot, call.active);
    Progress {
        episodes: retained(s.episodes, true, app_round(calls).slow),
        events: first.events,
        records: first.records,
    }
}

/// What the rules on processes look at in the last of the calls.
spec fn process_round(calls: Seq<Call>) -> Round {
    let call = calls.last();
    let s = after_calls(calls.drop_last());
    let seen = observations(call.snapshot.processes->0@);
    Round {
        now: call.now,
        total_memory: call.snapshot.memory.total_bytes,
        timestamp: call.snapshot.timestamp,
        active: call.active,
        fast: window_stats(s.fast, seen, call.now),
        slow: window_stats(s.slow, seen, call.now),
        record_due: recording_due(s.last_record, call.now),
    }
}

/// Where the processes of the last of the calls start from.
spec fn process_start(calls: Seq<Call>) -> Progress {
    let o = before_processes(calls);
    Progress {
        episodes: retained(o.state.episodes, false, process_round(calls).fast),
        events: o.events,
        records: o.records,
    }
}

/// The last of the calls, in its steps.
proof fn lemma_steps(calls: Seq<Call>)
    requires
        calls.len() > 0,
    ensures
        ({
            let call = calls.last();
            let s = after_calls(calls.drop_last());
            let first = machine_rules(s, call.now, call.snapshot, call.active);
            let second = before_processes(calls);
            let last = last_outcome(calls);
            let apps = app_run(
                app_start(calls),
                app_round(calls),
                call.snapshot.process_groups->0@,
            );
            let processes = process_run(
                process_start(calls),
                process_round(calls),
                call.snapshot.processes->0@,
            );
            &&& after_calls(calls) == last.state
            &&& first.state.episodes == s.episodes
            &&& !looks_at_apps(call) ==> second == first
            &&& looks_at_apps(call) ==> second.events == apps.events && second.state.episodes
                == apps.episodes
            &&& call.snapshot.processes is None ==> last == second
            &&& call.snapshot.processes is Some ==> last.events == processes.events
                && last.state.episodes == processes.episodes
        }),
{
}

/// The averages in a round are those of the run.
proof fn lemma_process_averages(calls: Seq<Call>, pid: u32)
    requires
        calls.len() > 0,
        in_time(calls),
        calls.last().snapshot.processes is Some,
        exists|j: int|
            0 <= j < calls.last().snapshot.processes->0@.len() && (
            #[trigger] calls.last().snapshot.processes->0@[j]).pid == pid,
        since_absent(process_sightings(calls), pid).len() <= usize::MAX,
    ensures
        ({
            let now = calls.last().now;
            let whole = since_absent(process_sightings(calls), pid);
            let r = process_round(calls);
            &&& r.fast.contains_key(pid)
            &&& no_older(whole, now, 60_000_000_000).len() > 0
            &&& averages_of(r.fast[pid], no_older(whole, now, 60_000_000_000), now)
            &&& no_older(whole, now, 300_000_000_000).len() > 0
            &&& averages_of(r.slow[pid], no_older(whole, now, 300_000_000_000), now)
        }),
{
    let before = calls.drop_last();
    let processes = calls.last().snapshot.processes->0@;
    lemma_windows_hold(before);
    lemma_clock(calls);
    let run = process_sightings(calls);
    assert(observations(processes) =~= processes_seen(processes));
    assert(run.drop_last() =~= process_sightings(before));
    let j = choose|j: int| 0 <= j < processes.len() && (#[trigger] processes[j]).pid == pid;
    assert(run.last().seen[j].pid == pid);
    law_averages_over_a_run(run, span(60_000_000_000), pid);
    law_averages_over_a_run(run, span(300_000_000_000), pid);
    assert(after_calls(before).fast.window == span(60_000_000_000));
    assert(after_calls(before).slow.window == span(300_000_000_000));
}

/// The averages in a round are those of the run.
proof fn lemma_app_averages(calls: Seq<Call>, pid: u32)
    requires
        calls.len() > 0,
        in_time(calls),
        looks_at_apps(calls.last()),
        exists|j: int|
            0 <= j < calls.last().snapshot.process_groups->0@.len() && (
            #[trigger] calls.last().snapshot.process_groups->0@[j]).root_pid == pid,
        since_absent(app_sightings(calls), pid).len() <= usize::MAX,
    ensures
        ({
            let now = calls.last().now;
            let whole = since_absent(app_sightings(calls), pid);
            let r = app_round(calls);
            &&& r.slow.contains_key(pid)
            &&& no_older(whole, now, 300_000_000_000).len() > 0
            &&& averages_of(r.slow[pid], no_older(whole, now, 300_000_000_000), now)
        }),
{
    let before = calls.drop_last();
    let groups = calls.last().snapshot.process_groups->0@;
    lemma_windows_hold(before);
    lemma_clock(calls);
    let run = app_sightings(calls);
    assert(group_observations(groups) =~= apps_seen(groups));
    assert(run.drop_last() =~= app_sightings(before));
    let j = choose|j: int| 0 <= j < groups.len() && (#[trigger] groups[j]).root_pid == pid;
    assert(run.last().seen[j].pid == pid);
    law_averages_over_a_run(run, span(300_000_000_000), pid);
    assert(after_calls(before).apps.window == span(300_000_000_000));
}

/// The rules before those on processes leave their keys alone.
proof fn lemma_before_processes(calls: Seq<Call>, key: Key)
    requires
        calls.len() > 0,
        key.1 == AlertKind::Cpu || key.1 == AlertKind::Memory,
    ensures
        alerts_where(before_processes(calls).events, on_key(key)) == Seq::<AlertEvent>::empty(),
        same_for(
            before_processes(calls).state.episodes,
            after_calls(calls.drop_last()).episodes,
            key,
        ),
{
    let call = calls.last();
    lemma_steps(calls);
    lemma_machine_elsewhere(
        after_calls(calls.drop_last()),
        call.now,
        call.snapshot,
        call.active,
        on_key(key),
    );
    if looks_at_apps(call) {
        lemma_apps_apart(
            app_start(calls),
            app_round(calls),
            call.snapshot.process_groups->0@,
            key,
        );
    }
}

/// The rules on processes leave the keys of applications alone.
proof fn lemma_after_apps(calls: Seq<Call>, key: Key)
    requires
        calls.len() > 0,
        key.1 == AlertKind::AppCpu || key.1 == AlertKind::AppMemory,
    ensures
        alerts_where(last_outcome(calls).events, on_key(key)) == alerts_where(
            before_processes(calls).events,
            on_key(key),
        ),
        same_for(
            last_outcome(calls).state.episodes,
            before_processes(calls).state.episodes,
            key,
        ),
{
    let call = calls.last();
    lemma_steps(calls);
    if call.snapshot.processes is Some {
        lemma_processes_apart(
            process_start(calls),
            process_round(calls),
            call.snapshot.processes->0@,
            key,
        );
    }
}

/// After any run of snapshots, the last one alerts on the processor use, or the
/// memory, of a process as its means say, over the last minute and the last five,
/// and as its episode allows. The means are those over every sample since the
/// process was last absent.
pub proof fn law_process_alert(
    calls: Seq<Call>,
    i: int,
    kind: AlertKind,
    minute: ProcessStats,
    five: ProcessStats,
)
    requires
        calls.len() > 0,
        in_time(calls),
        kind == AlertKind::Cpu || kind == AlertKind::Memory,
        calls.last().snapshot.processes is Some,
        0 <= i < calls.last().snapshot.processes->0@.len(),
        forall|j: int|
            0 <= j < calls.last().snapshot.processes->0@.len() && j != i ==> (
            #[trigger] calls.last().snapshot.processes->0@[j]).pid
                != calls.last().snapshot.processes->0@[i].pid,
        ({
            let now = calls.last().now;
            let pid = calls.last().snapshot.processes->0@[i].pid;
            let whole = since_absent(process_sightings(calls), pid);
            &&& whole.len() <= usize::MAX
            &&& averages_of(minute, no_older(whole, now, 60_000_000_000), now)
            &&& averages_of(five, no_older(whole, now, 300_000_000_000), now)
        }),
    ensures
        ({
            let call = calls.last();
            let x = call.snapshot.processes->0@[i];
            let key = (x.pid, kind);
            let total = call.snapshot.memory.total_bytes;
            verdict(
                after_calls(calls.drop_last()).episodes,
                after_calls(calls).episodes,
                alerts_where(last_outcome(calls).events, on_key(key)),
                key,
                process_applies(call.active, kind, five, total, x.name@),
                process_holds(call.active, kind, minute, five, total, x.name@),
                call.now,
                call.active.cooldown,
                AlertSubject::Process { pid: x.pid, name: x.name, display_name: x.display_name },
                process_tells(call.active, kind, minute, five, total, x.name@),
            )
        }),
{
    let call = calls.last();
    let processes = call.snapshot.processes->0@;
    let x = processes[i];
    let key = (x.pid, kind);
    let now = call.now;
    let whole = since_absent(process_sightings(calls), x.pid);
    let r = process_round(calls);
    lemma_steps(calls);
    lemma_process_averages(calls, x.pid);
    lemma_same_averages(minute, r.fast[x.pid], no_older(whole, now, 60_000_000_000), now);
    lemma_same_averages(five, r.slow[x.pid], no_older(whole, now, 300_000_000_000), now);
    lemma_sound(five, no_older(whole, now, 300_000_000_000), now);
    lemma_before_processes(calls, key);
    lemma_process_among(process_start(calls), r, processes, i, kind);
}

/// After any run of snapshots, the last one alerts on the processor use, or the
/// memory, of an application as its means over the last five minutes say, and as
/// its episode allows.
pub proof fn law_app_alert(calls: Seq<Call>, i: int, kind: AlertKind, five: ProcessStats)
    requires
        calls.len() > 0,
        in_time(calls),
        kind == AlertKind::AppCpu || kind == AlertKind::AppMemory,
        looks_at_apps(calls.last()),
        0 <= i < calls.last().snapshot.process_groups->0@.len(),
        forall|j: int|
            0 <= j < calls.last().snapshot.process_groups->0@.len() && j != i ==> (
            #[trigger] calls.last().snapshot.process_groups->0@[j]).root_pid
                != calls.last().snapshot.process_groups->0@[i].root_pid,
        ({
            let now = calls.last().now;
            let root = calls.last().snapshot.process_groups->0@[i].root_pid;
            let whole = since_absent(app_sightings(calls), root);
            &&& whole.len() <= usize::MAX
            &&& averages_of(five, no_older(whole, now, 300_000_000_000), now)
        }),
    ensures
        ({
            let call = calls.last();
            let g = call.snapshot.process_groups->0@[i];
            let key = (g.root_pid, kind);
            let total = call.snapshot.memory.total_bytes;
            verdict(
                after_calls(calls.drop_last()).episodes,
                after_calls(calls).episodes,
                alerts_where(last_outcome(calls).events, on_key(key)),
                key,
                app_applies(call.active, kind, five, total, g.name@),
                app_holds(call.active, kind, five, total, g.name@),
                call.now,
                call.active.cooldown,
                AlertSubject::App {
                    root_pid: g.root_pid,
                    name: g.name,
                    display_name: g.display_name,
                    process_count: g.process_count,
                },
                app_tells(call.active, kind, five, total, g.name@),
            )
        }),
{
    let call = calls.last();
    let groups = call.snapshot.process_groups->0@;
    let g = groups[i];
    let key = (g.root_pid, kind);
    let now = call.now;
    let whole = since_absent(app_sightings(calls), g.root_pid);
    let r = app_round(calls);
    lemma_steps(calls);
    lemma_app_averages(calls, g.root_pid);
    lemma_same_averages(five, r.slow[g.root_pid], no_older(whole, now, 300_000_000_000), now);
    lemma_sound(five, no_older(whole, now, 300_000_000_000), now);
    lemma_machine_elsewhere(
        after_calls(calls.drop_last()),
        now,
        call.snapshot,
        call.active,
        on_key(key),
    );
    lemma_app_among(app_start(calls), r, groups, i, kind);
    lemma_after_apps(calls, key);
}

/// A process that is not in a list of processes raises no alert, and its episodes
/// are forgotten, so that what has its pid next starts anew. A snapshot without a
/// list changes nothing.
pub proof fn law_absent_process_is_forgotten(calls: Seq<Call>, key: Key)
    requires
        calls.len() > 0,
        key.1 == AlertKind::Cpu || key.1 == AlertKind::Memory,
        calls.last().snapshot.processes is Some ==> forall|j: int|
            0 <= j < calls.last().snapshot.processes->0@.len() ==> (
            #[trigger] calls.last().snapshot.processes->0@[j]).pid != key.0,
    ensures
        ({
            let after = after_calls(calls).episodes;
            &&& alerts_where(last_outcome(calls).events, on_key(key)).len() == 0
            &&& calls.last().snapshot.processes is Some ==> !after.active.contains_key(key)
                && !after.last_alert.contains_key(key)
            &&& calls.last().snapshot.processes is None ==> same_for(
                after,
                after_calls(calls.drop_last()).episodes,
                key,
            )
        }),
{
    lemma_steps(calls);
    lemma_before_processes(calls, key);
    if calls.last().snapshot.processes is Some {
        let processes = calls.last().snapshot.processes->0@;
        let seen = observations(processes);
        assert(!process_round(calls).fast.contains_key(key.0)) by {
            if seen_pid(seen, key.0) {
                let j = choose|j: int| 0 <= j < seen.len() && #[trigger] seen[j].pid == key.0;
                assert(processes[j].pid == key.0);
            }
        }
        lemma_processes_apart(process_start(calls), process_round(calls), processes, key);
    }
}

/// An application that is not in a list of applications raises no alert, and its
/// episodes are forgotten. A snapshot that does not look at applications changes
/// nothing.
pub proof fn law_absent_app_is_forgotten(calls: Seq<Call>, key: Key)
    requires
        calls.len() > 0,
        key.1 == AlertKind::AppCpu || key.1 == AlertKind::AppMemory,
        looks_at_apps(calls.last()) ==> forall|j: int|
            0 <= j < calls.last().snapshot.process_groups->0@.len() ==> (
            #[trigger] calls.last().snapshot.process_groups->0@[j]).root_pid != key.0,
    ensures
        ({
            let after = after_calls(calls).episodes;
            &&& alerts_where(last_outcome(calls).events, on_key(key)).len() == 0
            &&& looks_at_apps(calls.last()) ==> !after.active.contains_key(key)
                && !after.last_alert.contains_key(key)
            &&& !looks_at_apps(calls.last()) ==> same_for(
                after,
                after_calls(calls.drop_last()).episodes,
                key,
            )
        }),
{
    let call = calls.last();
    lemma_steps(calls);
    lemma_machine_elsewhere(
        after_calls(calls.drop_last()),
        call.now,
        call.snapshot,
        call.active,
        on_key(key),
    );
    if looks_at_apps(call) {
        let groups = call.snapshot.process_groups->0@;
        let seen = group_observations(groups);
        assert(!app_round(calls).slow.contains_key(key.0)) by {
            if seen_pid(seen, key.0) {
                let j = choose|j: int| 0 <= j < seen.len() && #[trigger] seen[j].pid == key.0;
                assert(groups[j].root_pid == key.0);
            }
        }
        lemma_apps_apart(app_start(calls), app_round(calls), groups, key);
    }
    lemma_after_apps(calls, key);
}

} // verus!
