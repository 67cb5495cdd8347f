//! What a snapshot leaves in the history, process by process.
use vstd::prelude::*;
use super::engine::{outspends, span, spends, top_spender, WINDOW_NANOS};
use super::machine::lasted;
use super::memory::measured_sum;
use super::runs::{
    after_calls, in_time, last_outcome, last_round, law_records_of_a_snapshot, minute_record,
    minute_records, noteworthy, recent, unbroken, Call,
};
use super::verdicts::{
    lemma_clock, lemma_floor, lemma_same_mean, process_sightings, processes_seen,
};
use crate::averages::{
    added, averages_of, footprint_in, is_mean, lemma_averages, lemma_no_older_len, lemma_samples_in,
    lemma_since_absent, lemma_unexpired, no_older, samples_in, since_absent,
};
use crate::records::MetricRecord;
use crate::rolling::{observations, seen_pid, Sample};
use crate::snapshot::ProcessSnapshot;

verus! {

/// The samples of a process of the last minute, since it was last absent.
pub open spec fn minute_samples(calls: Seq<Call>, pid: u32) -> Seq<Sample> {
    no_older(
        since_absent(process_sightings(calls), pid),
        calls.last().now,
        60_000_000_000,
    )
}

/// Whether fifty seconds at least are known of a process.
pub open spec fn known_long_enough(calls: Seq<Call>, pid: u32) -> bool {
    let samples = minute_samples(calls, pid);
    samples.len() > 0 && lasted(calls.last().now, samples[0].at) >= 50_000_000_000
}

/// The processor time that a process spent over the last minute.
pub open spec fn time_spent(calls: Seq<Call>, pid: u32) -> int {
    let samples = minute_samples(calls, pid);
    let first = samples[0].cpu_time_ms;
    let last = samples[samples.len() - 1].cpu_time_ms;
    if last >= first {
        last - first
    } else {
        0
    }
}

/// Whether a pid is in the list of processes.
pub open spec fn is_listed(processes: Seq<ProcessSnapshot>, pid: u32) -> bool {
    exists|j: int| 0 <= j < processes.len() && (#[trigger] processes[j]).pid == pid
}

/// Whether a process spent processor time over a minute that is known long
/// enough.
pub open spec fn spent_some(calls: Seq<Call>, pid: u32) -> bool {
    is_listed(calls.last().snapshot.processes->0@, pid) && known_long_enough(calls, pid)
        && time_spent(calls, pid) > 0
}

/// Whether a process is among the five that spent the most processor time; of two
/// that spent as much, the one with the lower pid comes first.
pub open spec fn among_five(calls: Seq<Call>, pid: u32) -> bool {
    spent_some(calls, pid) && Set::new(
        |q: u32|
            spent_some(calls, q) && (time_spent(calls, q) > time_spent(calls, pid) || (time_spent(
                calls,
                q,
            ) == time_spent(calls, pid) && q < pid)),
    ).len() < 5
}

/// Whether `mean` times as many samples as there are makes at most what a figure of
/// them adds up to.
pub open spec fn mean_reaches(
    samples: Seq<Sample>,
    figure: spec_fn(Sample) -> int,
    bar: int,
) -> bool {
    exists|mean: u64| #[trigger] is_mean(mean, samples, figure) && mean >= bar
}

/// The memory of the samples added up: the footprints, where each has one, else
/// the resident memory.
pub open spec fn memory_added(samples: Seq<Sample>) -> int {
    if forall|i: int| 0 <= i < samples.len() ==> (#[trigger] samples[i]).footprint_bytes is Some {
        added(samples, |s: Sample| footprint_in(s))
    } else {
        added(samples, |s: Sample| s.memory_bytes as int)
    }
}

/// Whether a process is noted: it is known long enough, and its mean reaches the
/// base threshold of processor use, or that of memory, as a share or as bytes, or
/// it is among the five that spent the most processor time. A threshold that is
/// not set is never reached, and those of single names do not count.
pub open spec fn is_noted(calls: Seq<Call>, x: ProcessSnapshot) -> bool {
    let call = calls.last();
    let samples = minute_samples(calls, x.pid);
    let n = samples.len() as int;
    let total = call.snapshot.memory.total_bytes;
    let cpu = call.active.cpu.default_value();
    let memory = call.active.memory.default_value();
    let bytes = call.active.memory_ceiling;
    known_long_enough(calls, x.pid) && {
        ||| cpu is Some && mean_reaches(samples, |s: Sample| s.cpu as int, cpu->0 as int)
        ||| memory is Some && total > 0 && {
            ||| memory_added(samples) * 100_000_000 >= memory->0 * total * n
            ||| bytes is Some && memory_added(samples) >= bytes->0 * n
        }
        ||| among_five(calls, x.pid)
    }
}

/// The noted ones among the processes, in their order.
pub open spec fn noted(calls: Seq<Call>, processes: Seq<ProcessSnapshot>) -> Seq<ProcessSnapshot>
    decreases processes.len(),
{
    if processes.len() == 0 {
        Seq::empty()
    } else {
        let before = noted(calls, processes.drop_last());
        if is_noted(calls, processes.last()) {
            before.push(processes.last())
        } else {
            before
        }
    }
}

/// Whether a record tells of a process: the means of the last minute, the share of
/// memory, and the processor time since the process began.
pub open spec fn tells_of(m: MetricRecord, calls: Seq<Call>, x: ProcessSnapshot) -> bool {
    let snapshot = calls.last().snapshot;
    let samples = minute_samples(calls, x.pid);
    let n = samples.len() as int;
    let total = snapshot.memory.total_bytes as int;
    let resident = added(samples, |s: Sample| s.memory_bytes as int);
    let footprints = forall|i: int|
        0 <= i < samples.len() ==> (#[trigger] samples[i]).footprint_bytes is Some;
    &&& m.timestamp == snapshot.timestamp
    &&& m.pid == x.pid
    &&& m.name == x.name
    &&& m.display_name == x.display_name
    &&& is_mean(m.cpu_avg_percent, samples, |s: Sample| s.cpu as int)
    &&& is_mean(m.memory_avg_bytes, samples, |s: Sample| s.memory_bytes as int)
    &&& total > 0 ==> m.memory_share_percent * (n * total) <= resident * 100_000_000 < (
    m.memory_share_percent + 1) * (n * total)
    &&& total == 0 ==> m.memory_share_percent == 0
    &&& m.memory_footprint_bytes is Some <==> footprints
    &&& footprints ==> is_mean(
        m.memory_footprint_bytes->0,
        samples,
        |s: Sample| footprint_in(s),
    )
    &&& m.cpu_time_ms == x.cpu_time_ms
}

/// The unbroken samples of a run are those since the process was last absent.
proof fn lemma_unbroken(calls: Seq<Call>, pid: u32)
    ensures
        unbroken(calls, pid) == since_absent(process_sightings(calls), pid),
    decreases calls.len(),
{
    if calls.len() > 0 {
        let call = calls.last();
        let before = calls.drop_last();
        lemma_unbroken(before, pid);
        if call.snapshot.processes is Some {
            let processes = call.snapshot.processes->0@;
            assert(observations(processes) =~= processes_seen(processes));
            assert(process_sightings(calls).drop_last() =~= process_sightings(before));
            lemma_samples_in(observations(processes), pid, call.now);
        }
    }
}

/// The averages over the last minute are those of its samples.
proof fn lemma_minute(calls: Seq<Call>, pid: u32)
    requires
        calls.len() > 0,
        in_time(calls),
        calls.last().snapshot.processes is Some,
        is_listed(calls.last().snapshot.processes->0@, pid),
        since_absent(process_sightings(calls), pid).len() <= usize::MAX,
    ensures
        minute_samples(calls, pid).len() > 0,
        averages_of(
            recent(calls, pid, WINDOW_NANOS),
            minute_samples(calls, pid),
            calls.last().now,
        ),
{
    let now = calls.last().now;
    let processes = calls.last().snapshot.processes->0@;
    let run = process_sightings(calls);
    lemma_unbroken(calls, pid);
    lemma_clock(calls);
    lemma_since_absent(run, pid);
    let whole = since_absent(run, pid);
    lemma_unexpired(whole, now, span(60_000_000_000));
    lemma_no_older_len(whole, now, 60_000_000_000);
    let seen = processes_seen(processes);
    let j = choose|j: int| 0 <= j < processes.len() && (#[trigger] processes[j]).pid == pid;
    assert(seen[j].pid == pid);
    assert(seen_pid(seen, pid));
    lemma_samples_in(seen, pid, now);
    let new = samples_in(seen, pid, now);
    assert(run.last().seen == seen);
    assert(whole.last() == new[new.len() - 1]);
    lemma_averages(minute_samples(calls, pid), now);
}

/// A mean is unique.
proof fn lemma_mean_reaches(
    mean: u64,
    samples: Seq<Sample>,
    figure: spec_fn(Sample) -> int,
    bar: int,
)
    requires
        samples.len() > 0,
        is_mean(mean, samples, figure),
    ensures
        mean_reaches(samples, figure, bar) <==> mean >= bar,
{
    if mean_reaches(samples, figure, bar) {
        let other = choose|other: u64| #[trigger] is_mean(other, samples, figure) && other >= bar;
        lemma_same_mean(
            mean as int,
            other as int,
            samples.len() as int,
            added(samples, figure),
        );
    }
}

/// The five that spent the most.
proof fn lemma_five(calls: Seq<Call>, pid: u32)
    requires
        calls.len() > 0,
        in_time(calls),
        calls.last().snapshot.processes is Some,
        forall|q: u32|
            (#[trigger] since_absent(process_sightings(calls), q)).len() <= usize::MAX,
        is_listed(calls.last().snapshot.processes->0@, pid),
    ensures
        top_spender(last_round(calls).fast, pid) == among_five(calls, pid),
{
    let processes = calls.last().snapshot.processes->0@;
    let stats = last_round(calls).fast;
    assert forall|q: u32| spends(stats, q) == spent_some(calls, q) && (
    spends(stats, q) ==> stats[q].cpu_time_delta_ms == time_spent(calls, q)) by {
        lemma_listed(processes, q);
        if is_listed(processes, q) {
            assert(since_absent(process_sightings(calls), q).len() <= usize::MAX);
            lemma_minute(calls, q);
        }
    }
    let a = Set::new(|q: u32| outspends(stats, q, pid));
    let b = Set::new(
        |q: u32|
            spent_some(calls, q) && (time_spent(calls, q) > time_spent(calls, pid) || (time_spent(
                calls,
                q,
            ) == time_spent(calls, pid) && q < pid)),
    );
    if spent_some(calls, pid) {
        assert(a =~= b);
    }
}

/// A pid is seen where it is listed.
proof fn lemma_listed(processes: Seq<ProcessSnapshot>, pid: u32)
    ensures
        is_listed(processes, pid) <==> seen_pid(observations(processes), pid),
{
    let seen = observations(processes);
    if is_listed(processes, pid) {
        let j = choose|j: int| 0 <= j < processes.len() && (#[trigger] processes[j]).pid == pid;
        assert(seen[j].pid == pid);
    }
    if seen_pid(seen, pid) {
        let j = choose|j: int| 0 <= j < seen.len() && #[trigger] seen[j].pid == pid;
        assert(processes[j].pid == pid);
    }
}

/// A process is noted, and its record tells of it.
proof fn lemma_noted(calls: Seq<Call>, x: ProcessSnapshot)
    requires
        calls.len() > 0,
        in_time(calls),
        calls.last().snapshot.processes is Some,
        forall|q: u32|
            (#[trigger] since_absent(process_sightings(calls), q)).len() <= usize::MAX,
        is_listed(calls.last().snapshot.processes->0@, x.pid),
    ensures
        noteworthy(calls, x) == is_noted(calls, x),
        tells_of(minute_record(calls, x), calls, x),
{
    let now = calls.last().now;
    let total = calls.last().snapshot.memory.total_bytes as int;
    let fast = recent(calls, x.pid, WINDOW_NANOS);
    let samples = minute_samples(calls, x.pid);
    assert(since_absent(process_sightings(calls), x.pid).len() <= usize::MAX);
    lemma_minute(calls, x.pid);
    lemma_five(calls, x.pid);
    let cpu = calls.last().active.cpu.default_value();
    if cpu is Some {
        lemma_mean_reaches(fast.cpu_avg, samples, |s: Sample| s.cpu as int, cpu->0 as int);
    }
    assert(measured_sum(fast) == memory_added(samples));
    let n = samples.len() as int;
    if total > 0 {
        let sum = fast.memory_sum_bytes as int;
        assert(0 <= sum <= 0x1_0000_0000_0000_0000 * n) by (nonlinear_arith)
            requires
                n > 0,
                0 <= fast.memory_avg_bytes < 0x1_0000_0000_0000_0000,
                0 <= sum < (fast.memory_avg_bytes + 1) * n,
        ;
        lemma_floor(
            sum * 100_000_000,
            n * total,
            0x1_0000_0000_0000_0000int * 100_000_000,
            n,
            total,
        );
    }
}

/// The records of some of the processes.
proof fn lemma_records(calls: Seq<Call>, processes: Seq<ProcessSnapshot>)
    requires
        calls.len() > 0,
        in_time(calls),
        calls.last().snapshot.processes is Some,
        forall|q: u32|
            (#[trigger] since_absent(process_sightings(calls), q)).len() <= usize::MAX,
        forall|i: int|
            0 <= i < processes.len() ==> is_listed(
                calls.last().snapshot.processes->0@,
                (#[trigger] processes[i]).pid,
            ),
    ensures
        ({
            let records = minute_records(calls, processes);
            let those = noted(calls, processes);
            &&& records.len() == those.len()
            &&& forall|k: int|
                0 <= k < records.len() ==> tells_of(#[trigger] records[k], calls, those[k])
        }),
    decreases processes.len(),
{
    if processes.len() > 0 {
        let rest = processes.drop_last();
        assert forall|i: int| 0 <= i < rest.len() implies is_listed(
            calls.last().snapshot.processes->0@,
            (#[trigger] rest[i]).pid,
        ) by {
            assert(rest[i] == processes[i]);
        }
        lemma_records(calls, rest);
        assert(processes.last() == processes[processes.len() - 1]);
        lemma_noted(calls, processes.last());
    }
}

/// After any run of snapshots, the last one is recorded if a minute or more has
/// passed since the last one that was. Then there is a record of each noted
/// process, in the order of the list, and of no other; else there is none.
pub proof fn law_history_of_a_snapshot(calls: Seq<Call>)
    requires
        calls.len() > 0,
        in_time(calls),
        forall|q: u32|
            (#[trigger] since_absent(process_sightings(calls), q)).len() <= usize::MAX,
    ensures
        ({
            let call = calls.last();
            let before = after_calls(calls.drop_last()).last_record;
            let records = last_outcome(calls).records;
            let due = call.snapshot.processes is Some && (before is None || lasted(
                call.now,
                before->0,
            ) >= 60_000_000_000);
            let those = noted(calls, call.snapshot.processes->0@);
            &&& !due ==> records.len() == 0 && after_calls(calls).last_record == before
            &&& due ==> {
                &&& after_calls(calls).last_record == Some(call.now)
                &&& records.len() == those.len()
                &&& forall|k: int|
                    0 <= k < records.len() ==> tells_of(#[trigger] records[k], calls, those[k])
            }
        }),
{
    law_records_of_a_snapshot(calls);
    let call = calls.last();
    if call.snapshot.processes is Some {
        let processes = call.snapshot.processes->0@;
        assert forall|i: int| 0 <= i < processes.len() implies is_listed(
            processes,
            (#[trigger] processes[i]).pid,
        ) by {}
        lemma_records(calls, processes);
    }
}

} // verus!
