//! What a snapshot of the whole machine alerts on: its volumes and the pressure on
//! its memory.
use vstd::prelude::*;
use super::active::ActiveThresholds;
use super::consumers::consumers_of;
use super::engine::{
    app_cpu_rule, app_memory_rule, app_rules, app_run, app_step, cpu_rule, disk_event, disk_rule,
    disk_run, disk_step, evaluated, group_observations, machine_rules, memory_rule, pressure_rule,
    process_run, recording_due, window_stats, DiskProgress, EngineState, Progress, Round,
};
use super::episode::retained;
use super::event::{AlertDetail, AlertEvent, AlertSubject};
use super::names::mounted;
use super::thresholds::Thresholds;
use crate::rolling::observations;
use crate::snapshot::{DiskSnapshot, ProcessGroupSnapshot, ProcessSnapshot, SystemSnapshot};
use crate::time::{Duration, Instant};

verus! {

/// The alerts that `which` picks, in their order.
pub open spec fn alerts_where(
    events: Seq<AlertEvent>,
    which: spec_fn(AlertEvent) -> bool,
) -> Seq<AlertEvent>
    decreases events.len(),
{
    if events.len() == 0 {
        Seq::empty()
    } else if which(events.last()) {
        alerts_where(events.drop_last(), which).push(events.last())
    } else {
        alerts_where(events.drop_last(), which)
    }
}

/// One more alert.
pub(crate) proof fn lemma_where_pushed(
    events: Seq<AlertEvent>,
    e: AlertEvent,
    which: spec_fn(AlertEvent) -> bool,
)
    ensures
        alerts_where(events.push(e), which) == if which(e) {
            alerts_where(events, which).push(e)
        } else {
            alerts_where(events, which)
        },
{
    assert(events.push(e).drop_last() =~= events);
}

/// One application adds alerts on applications only.
proof fn lemma_app_elsewhere(
    p: Progress,
    r: Round,
    g: ProcessGroupSnapshot,
    which: spec_fn(AlertEvent) -> bool,
)
    requires
        forall|e: AlertEvent| e.subject is App ==> !#[trigger] which(e),
    ensures
        alerts_where(app_step(p, r, g).events, which) == alerts_where(p.events, which),
{
    let q = app_cpu_rule(p, r, g);
    assert(alerts_where(q.events, which) == alerts_where(p.events, which)) by {
        if q.events != p.events {
            assert(q.events.drop_last() =~= p.events);
            assert(q.events.last().subject is App);
        }
    }
    let t = app_memory_rule(q, r, g);
    assert(alerts_where(t.events, which) == alerts_where(q.events, which)) by {
        if t.events != q.events {
            assert(t.events.drop_last() =~= q.events);
            assert(t.events.last().subject is App);
        }
    }
}

/// Applications add alerts on applications only.
pub(crate) proof fn lemma_apps_elsewhere(
    p: Progress,
    r: Round,
    groups: Seq<ProcessGroupSnapshot>,
    which: spec_fn(AlertEvent) -> bool,
)
    requires
        forall|e: AlertEvent| e.subject is App ==> !#[trigger] which(e),
    ensures
        alerts_where(app_run(p, r, groups).events, which) == alerts_where(p.events, which),
    decreases groups.len(),
{
    if groups.len() > 0 {
        lemma_apps_elsewhere(p, r, groups.drop_last(), which);
        lemma_app_elsewhere(app_run(p, r, groups.drop_last()), r, groups.last(), which);
    }
}

/// Processes add alerts on processes only.
pub(crate) proof fn lemma_processes_elsewhere(
    p: Progress,
    r: Round,
    processes: Seq<ProcessSnapshot>,
    which: spec_fn(AlertEvent) -> bool,
)
    requires
        forall|e: AlertEvent| e.subject is Process ==> !#[trigger] which(e),
    ensures
        alerts_where(process_run(p, r, processes).events, which) == alerts_where(p.events, which),
    decreases processes.len(),
{
    if processes.len() > 0 {
        lemma_processes_elsewhere(p, r, processes.drop_last(), which);
        let q = process_run(p, r, processes.drop_last());
        let x = processes.last();
        let a = cpu_rule(q, r, x);
        assert(alerts_where(a.events, which) == alerts_where(q.events, which)) by {
            if a.events != q.events {
                assert(a.events.drop_last() =~= q.events);
                assert(a.events.last().subject is Process);
            }
        }
        let b = memory_rule(a, r, x);
        assert(alerts_where(b.events, which) == alerts_where(a.events, which)) by {
            if b.events != a.events {
                assert(b.events.drop_last() =~= a.events);
                assert(b.events.last().subject is Process);
            }
        }
    }
}

/// The rules on applications and processes leave the volumes and the pressure
/// alone.
proof fn lemma_later_rules(
    s: EngineState,
    now: Instant,
    snapshot: SystemSnapshot,
    active: ActiveThresholds,
    which: spec_fn(AlertEvent) -> bool,
)
    requires
        forall|e: AlertEvent| e.subject is Process || e.subject is App ==> !#[trigger] which(e),
    ensures
        ({
            let first = machine_rules(s, now, snapshot, active);
            let last = evaluated(s, now, snapshot, active);
            &&& alerts_where(last.events, which) == alerts_where(first.events, which)
            &&& last.state.disarmed == first.state.disarmed
            &&& last.state.pressure == first.state.pressure
        }),
{
    let first = machine_rules(s, now, snapshot, active);
    let second = app_rules(first, now, snapshot, active);
    if snapshot.process_groups is Some && (active.app_cpu.enabled()
        || active.app_memory.enabled()) {
        let groups = snapshot.process_groups->0@;
        let stats = window_stats(first.state.apps, group_observations(groups), now);
        let round = Round {
            now,
            total_memory: snapshot.memory.total_bytes,
            timestamp: snapshot.timestamp,
            active,
            fast: Map::empty(),
            slow: stats,
            record_due: false,
        };
        let start = Progress {
            episodes: retained(first.state.episodes, true, stats),
            events: first.events,
            records: first.records,
        };
        lemma_apps_elsewhere(start, round, groups, which);
    }
    if snapshot.processes is Some {
        let processes = snapshot.processes->0@;
        let seen = observations(processes);
        let round = Round {
            now,
            total_memory: snapshot.memory.total_bytes,
            timestamp: snapshot.timestamp,
            active,
            fast: window_stats(second.state.fast, seen, now),
            slow: window_stats(second.state.slow, seen, now),
            record_due: recording_due(second.state.last_record, now),
        };
        let start = Progress {
            episodes: retained(second.state.episodes, false, round.fast),
            events: second.events,
            records: second.records,
        };
        lemma_processes_elsewhere(start, round, processes, which);
    }
}

/// Whether an alert is on the volume at `mount`.
pub open spec fn on_volume(mount: Seq<char>) -> spec_fn(AlertEvent) -> bool {
    |e: AlertEvent|
        match e.subject {
            AlertSubject::Volume { mount_point } => mount_point@ == mount,
            _ => false,
        }
}

/// A volume elsewhere changes nothing for `mount`.
proof fn lemma_disk_apart(
    s: DiskProgress,
    rule: &Thresholds<u64>,
    d: DiskSnapshot,
    mount: Seq<char>,
)
    requires
        d.mount_point@ != mount,
    ensures
        ({
            let t = disk_step(s, rule, d);
            &&& alerts_where(t.1, on_volume(mount)) == alerts_where(s.1, on_volume(mount))
            &&& t.0.contains(mount) == s.0.contains(mount)
        }),
{
    if rule.threshold(d.mount_point@) is Some {
        lemma_where_pushed(
            s.1,
            disk_event(d, rule.threshold(d.mount_point@)->0),
            on_volume(mount),
        );
    }
}

/// Volumes elsewhere change nothing for `mount`.
proof fn lemma_disks_apart(
    s: DiskProgress,
    rule: &Thresholds<u64>,
    disks: Seq<DiskSnapshot>,
    mount: Seq<char>,
)
    requires
        forall|j: int| 0 <= j < disks.len() ==> (#[trigger] disks[j]).mount_point@ != mount,
    ensures
        ({
            let t = disk_run(s, rule, disks);
            &&& alerts_where(t.1, on_volume(mount)) == alerts_where(s.1, on_volume(mount))
            &&& t.0.contains(mount) == s.0.contains(mount)
        }),
    decreases disks.len(),
{
    if disks.len() > 0 {
        let rest = disks.drop_last();
        assert forall|j: int| 0 <= j < rest.len() implies (#[trigger] rest[j]).mount_point@
            != mount by {
            assert(rest[j] == disks[j]);
        }
        lemma_disks_apart(s, rule, rest, mount);
        assert(disks.last() == disks[disks.len() - 1]);
        lemma_disk_apart(disk_run(s, rule, rest), rule, disks.last(), mount);
    }
}

/// Whether a volume raises an alert: it has a threshold and a size, has not
/// alerted since it was last low, and at least its threshold is in use. Shares are
/// compared in millionths of a percent, without a division.
pub open spec fn volume_is_due(armed: bool, threshold: Option<u64>, d: DiskSnapshot) -> bool {
    let used = if d.available_bytes <= d.total_bytes {
        d.total_bytes - d.available_bytes
    } else {
        0
    };
    armed && threshold is Some && d.total_bytes > 0 && used * 100_000_000 >= threshold->0
        * d.total_bytes
}

/// Whether a volume that alerted is low enough to alert again: five percent
/// below its threshold.
pub open spec fn volume_is_low(threshold: Option<u64>, d: DiskSnapshot) -> bool {
    let used = if d.available_bytes <= d.total_bytes {
        d.total_bytes - d.available_bytes
    } else {
        0
    };
    threshold is Some && d.total_bytes > 0 && used * 100_000_000 < (threshold->0 - 5_000_000)
        * d.total_bytes
}

/// One volume.
proof fn lemma_disk_alone(
    s: DiskProgress,
    rule: &Thresholds<u64>,
    d: DiskSnapshot,
)
    ensures
        ({
            let t = disk_step(s, rule, d);
            let mount = d.mount_point@;
            let threshold = rule.threshold(mount);
            let before = alerts_where(s.1, on_volume(mount));
            let after = alerts_where(t.1, on_volume(mount));
            let due = volume_is_due(!s.0.contains(mount), threshold, d);
            &&& due ==> after == before.push(disk_event(d, threshold->0))
            &&& !due ==> after == before
            &&& t.0.contains(mount) <==> due || (s.0.contains(mount) && !volume_is_low(
                threshold,
                d,
            ))
        }),
{
    if rule.threshold(d.mount_point@) is Some {
        lemma_where_pushed(
            s.1,
            disk_event(d, rule.threshold(d.mount_point@)->0),
            on_volume(d.mount_point@),
        );
    }
}

/// The one volume at a mount point among others.
proof fn lemma_disk_among(
    s: DiskProgress,
    rule: &Thresholds<u64>,
    disks: Seq<DiskSnapshot>,
    i: int,
)
    requires
        0 <= i < disks.len(),
        forall|j: int|
            0 <= j < disks.len() && j != i ==> (#[trigger] disks[j]).mount_point@
                != disks[i].mount_point@,
    ensures
        ({
            let d = disks[i];
            let t = disk_run(s, rule, disks);
            let mount = d.mount_point@;
            let threshold = rule.threshold(mount);
            let before = alerts_where(s.1, on_volume(mount));
            let after = alerts_where(t.1, on_volume(mount));
            let due = volume_is_due(!s.0.contains(mount), threshold, d);
            &&& due ==> after == before.push(disk_event(d, threshold->0))
            &&& !due ==> after == before
            &&& t.0.contains(mount) <==> due || (s.0.contains(mount) && !volume_is_low(
                threshold,
                d,
            ))
        }),
    decreases disks.len(),
{
    let rest = disks.drop_last();
    let mount = disks[i].mount_point@;
    assert forall|j: int| 0 <= j < rest.len() && j != i implies (#[trigger] rest[j]).mount_point@
        != mount by {
        assert(rest[j] == disks[j]);
    }
    if i < rest.len() {
        lemma_disk_among(s, rule, rest, i);
        assert(disks.last() == disks[disks.len() - 1]);
        lemma_disk_apart(disk_run(s, rule, rest), rule, disks.last(), mount);
    } else {
        lemma_disks_apart(s, rule, rest, mount);
        lemma_disk_alone(disk_run(s, rule, rest), rule, disks.last());
    }
}

/// A snapshot alerts on a volume exactly if it has a threshold, at least that
/// share of it is in use, and it has not alerted since it was last five percent
/// below. There is one such alert at most. It tells the share in use, rounded down,
/// the threshold, and the bytes. A volume that alerted is silent from then on until
/// it is that low.
pub proof fn law_volume_alert(
    s: EngineState,
    now: Instant,
    snapshot: SystemSnapshot,
    active: ActiveThresholds,
    i: int,
)
    requires
        snapshot.disks is Some,
        0 <= i < snapshot.disks->0@.len(),
        forall|j: int|
            0 <= j < snapshot.disks->0@.len() && j != i ==> (
            #[trigger] snapshot.disks->0@[j]).mount_point@ != snapshot.disks->0@[i].mount_point@,
    ensures
        ({
            let d = snapshot.disks->0@[i];
            let mount = d.mount_point@;
            let threshold = active.disk.threshold(mount);
            let o = evaluated(s, now, snapshot, active);
            let raised = alerts_where(o.events, on_volume(mount));
            let due = volume_is_due(!s.disarmed.contains(mount), threshold, d);
            &&& raised.len() == if due {
                1nat
            } else {
                0
            }
            &&& due ==> {
                &&& raised[0].repeat_after is None
                &&& raised[0].detail matches AlertDetail::Disk {
                    used_percent,
                    threshold_percent,
                    available_bytes,
                    total_bytes,
                }
                &&& threshold_percent == threshold->0
                &&& available_bytes == d.available_bytes
                &&& total_bytes == d.total_bytes
                &&& used_percent * d.total_bytes <= if d.available_bytes <= d.total_bytes {
                    (d.total_bytes - d.available_bytes) * 100_000_000
                } else {
                    0
                }
                &&& (used_percent + 1) * d.total_bytes > if d.available_bytes <= d.total_bytes {
                    (d.total_bytes - d.available_bytes) * 100_000_000
                } else {
                    0
                }
            }
            &&& o.state.disarmed.contains(mount) <==> due || (s.disarmed.contains(mount)
                && !volume_is_low(threshold, d))
        }),
{
    let disks = snapshot.disks->0@;
    let d = disks[i];
    let mount = d.mount_point@;
    let armed = s.disarmed.filter(|m: Seq<char>| mounted(disks, m));
    assert(mounted(disks, mount));
    lemma_later_rules(s, now, snapshot, active, on_volume(mount));
    lemma_disk_among((armed, Seq::empty()), &active.disk, disks, i);
    lemma_pressure_elsewhere(s, now, snapshot, active, on_volume(mount));
    if d.total_bytes > 0 {
        let used = if d.available_bytes <= d.total_bytes {
            d.total_bytes - d.available_bytes
        } else {
            0
        };
        let total = d.total_bytes as int;
        let share = used * 100_000_000 / total;
        assert(share * total <= used * 100_000_000 < (share + 1) * total && 0 <= share
            <= 100_000_000) by (nonlinear_arith)
            requires
                0 <= used <= total,
                total > 0,
                share == used * 100_000_000 / total,
        ;
    }
}

/// Pressure adds alerts on the machine only.
proof fn lemma_pressure_elsewhere(
    s: EngineState,
    now: Instant,
    snapshot: SystemSnapshot,
    active: ActiveThresholds,
    which: spec_fn(AlertEvent) -> bool,
)
    requires
        forall|e: AlertEvent| e.subject is System ==> !#[trigger] which(e),
    ensures
        alerts_where(machine_rules(s, now, snapshot, active).events, which) == alerts_where(
            disk_rule(s.disarmed, &active.disk, snapshot.disks).1,
            which,
        ),
{
    let pressure = pressure_rule(s.pressure, now, active.pressure, snapshot);
    if pressure.event is Some {
        lemma_where_pushed(
            disk_rule(s.disarmed, &active.disk, snapshot.disks).1,
            pressure.event->0,
            which,
        );
    }
}

/// Where no volume is mounted there is no alert on one, and what alerted there
/// before is forgotten. A snapshot without a list of volumes neither alerts on one
/// nor forgets one.
pub proof fn law_absent_volume_is_forgotten(
    s: EngineState,
    now: Instant,
    snapshot: SystemSnapshot,
    active: ActiveThresholds,
    mount: Seq<char>,
)
    requires
        snapshot.disks is Some ==> forall|j: int|
            0 <= j < snapshot.disks->0@.len() ==> (
            #[trigger] snapshot.disks->0@[j]).mount_point@ != mount,
    ensures
        ({
            let o = evaluated(s, now, snapshot, active);
            &&& alerts_where(o.events, on_volume(mount)).len() == 0
            &&& snapshot.disks is Some ==> !o.state.disarmed.contains(mount)
            &&& snapshot.disks is None ==> o.state.disarmed.contains(mount)
                == s.disarmed.contains(mount)
        }),
{
    lemma_later_rules(s, now, snapshot, active, on_volume(mount));
    lemma_pressure_elsewhere(s, now, snapshot, active, on_volume(mount));
    if snapshot.disks is Some {
        let disks = snapshot.disks->0@;
        let armed = s.disarmed.filter(|m: Seq<char>| mounted(disks, m));
        lemma_disks_apart((armed, Seq::empty()), &active.disk, disks, mount);
    }
}

/// Whether an alert is on the machine as a whole.
pub open spec fn on_machine() -> spec_fn(AlertEvent) -> bool {
    |e: AlertEvent| e.subject is System
}

/// Volumes add alerts on volumes only.
proof fn lemma_disks_elsewhere(
    s: DiskProgress,
    rule: &Thresholds<u64>,
    disks: Seq<DiskSnapshot>,
    which: spec_fn(AlertEvent) -> bool,
)
    requires
        forall|e: AlertEvent| e.subject is Volume ==> !#[trigger] which(e),
    ensures
        alerts_where(disk_run(s, rule, disks).1, which) == alerts_where(s.1, which),
    decreases disks.len(),
{
    if disks.len() > 0 {
        lemma_disks_elsewhere(s, rule, disks.drop_last(), which);
        let t = disk_run(s, rule, disks.drop_last());
        let u = disk_step(t, rule, disks.last());
        if u.1 != t.1 {
            assert(u.1.drop_last() =~= t.1);
            assert(u.1.last().subject is Volume);
        }
    }
}

/// Volumes and pressure add no alert on a process or an application.
pub(crate) proof fn lemma_machine_elsewhere(
    s: EngineState,
    now: Instant,
    snapshot: SystemSnapshot,
    active: ActiveThresholds,
    which: spec_fn(AlertEvent) -> bool,
)
    requires
        forall|e: AlertEvent| e.subject is System || e.subject is Volume ==> !#[trigger] which(e),
    ensures
        alerts_where(machine_rules(s, now, snapshot, active).events, which) == Seq::<
            AlertEvent,
        >::empty(),
{
    lemma_pressure_elsewhere(s, now, snapshot, active, which);
    if snapshot.disks is Some {
        let disks = snapshot.disks->0@;
        let armed = s.disarmed.filter(|m: Seq<char>| mounted(disks, m));
        lemma_disks_elsewhere((armed, Seq::empty()), &active.disk, disks, which);
    }
}

/// How long ago `start` was, in nanoseconds.
pub open spec fn lasted(now: Instant, start: Instant) -> int {
    if start.nanos <= now.nanos {
        now.nanos - start.nanos
    } else {
        0
    }
}

/// How long the next reminder waits after `reminders` of them, in seconds.
pub open spec fn reminder_seconds(reminders: u32) -> int {
    if reminders == 0 {
        1_800
    } else if reminders == 1 {
        3_600
    } else if reminders == 2 {
        7_200
    } else {
        14_400
    }
}

/// A snapshot alerts on the pressure on memory at most once. It alerts on a level
/// that counts, by the threshold, that is above every level told of since the
/// pressure was last normal, once the pressure has lasted a minute where it is
/// critical and five minutes else. While a level that counts lasts, it alerts again
/// half an hour after it was told of, then an hour, two hours, and four hours after
/// the time before; those alerts tell the time since the first. A normal level ends
/// all that, and an unknown level or a rule that is off changes nothing.
pub proof fn law_pressure_alert(
    s: EngineState,
    now: Instant,
    snapshot: SystemSnapshot,
    active: ActiveThresholds,
)
    ensures
        ({
            let o = evaluated(s, now, snapshot, active);
            let raised = alerts_where(o.events, on_machine());
            let was = s.pressure;
            let after = o.state.pressure;
            let known = active.pressure is Some && snapshot.memory.pressure_level is Some;
            let level = snapshot.memory.pressure_level->0;
            let start = if was.since is Some {
                was.since->0
            } else {
                now
            };
            let counts = known && level >= 2 && level >= active.pressure->0;
            let first = counts && level > was.alerted && lasted(now, start) >= if level >= 4 {
                60_000_000_000int
            } else {
                300_000_000_000
            };
            let again = counts && !first && was.told is Some && lasted(now, was.told->0.last)
                >= reminder_seconds(was.told->0.reminders) * 1_000_000_000;
            &&& raised.len() == if first || again {
                1nat
            } else {
                0
            }
            &&& first ==> raised[0].repeat_after is None
            &&& again ==> raised[0].repeat_after == Some(
                Duration { nanos: lasted(now, was.told->0.first) as u128 },
            )
            &&& first || again ==> {
                &&& raised[0].detail matches AlertDetail::Pressure {
                    level: told_level,
                    sustained,
                    swap_used_bytes,
                    swap_total_bytes,
                    compressed_bytes,
                    top_consumers,
                }
                &&& told_level == level
                &&& sustained.nanos == lasted(now, start)
                &&& swap_used_bytes == snapshot.memory.swap_used_bytes
                &&& swap_total_bytes == snapshot.memory.swap_total_bytes
                &&& compressed_bytes == snapshot.memory.compressed_bytes
                &&& top_consumers == consumers_of(snapshot)
            }
            &&& !known ==> after == was
            &&& known && level <= 1 ==> after.since is None && after.alerted == 0
                && after.told is None
            &&& known && level >= 2 ==> {
                &&& after.since == Some(start)
                &&& after.alerted == if first {
                    level
                } else {
                    was.alerted
                }
                &&& !first && !again ==> after.told == was.told
                &&& first || again ==> after.told is Some && after.told->0.last == now
                    && after.told->0.first == if was.told is Some {
                    was.told->0.first
                } else {
                    now
                }
                &&& first ==> after.told->0.reminders == if was.told is Some {
                    was.told->0.reminders
                } else {
                    0
                }
                &&& again ==> reminder_seconds(after.told->0.reminders) == if reminder_seconds(
                    was.told->0.reminders,
                ) < 14_400 {
                    2 * reminder_seconds(was.told->0.reminders)
                } else {
                    14_400
                }
            }
        }),
{
    lemma_later_rules(s, now, snapshot, active, on_machine());
    if snapshot.disks is Some {
        let disks = snapshot.disks->0@;
        let armed = s.disarmed.filter(|m: Seq<char>| mounted(disks, m));
        lemma_disks_elsewhere((armed, Seq::empty()), &active.disk, disks, on_machine());
    }
    let events = disk_rule(s.disarmed, &active.disk, snapshot.disks).1;
    let pressure = pressure_rule(s.pressure, now, active.pressure, snapshot);
    if pressure.event is Some {
        lemma_where_pushed(events, pressure.event->0, on_machine());
    }
}

} // verus!
