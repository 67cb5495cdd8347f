//! Rolling averages of each process over a fixed span of time.
use std::collections::HashMap;
use vstd::prelude::*;
use vstd::std_specs::hash::*;
use crate::snapshot::ProcessSnapshot;
use crate::time::{nanos_since, Duration, Instant};

verus! {

broadcast use vstd::std_specs::hash::group_hash_axioms;

/// What was seen of one process, or of one process tree.
#[derive(Debug, Clone, Copy, PartialEq, Eq, Structural)]
pub struct Observation {
    pub pid: u32,
    /// Millionths of a percent of one core
    pub cpu: u64,
    pub memory_bytes: u64,
    /// The physical footprint, where the system reports one
    pub footprint_bytes: Option<u64>,
    /// The processor time counter
    pub cpu_time_ms: u64,
}

/// One recorded sample.
#[derive(Debug, Clone, Copy, PartialEq, Eq, Structural)]
pub struct Sample {
    pub at: Instant,
    pub cpu: u64,
    pub memory_bytes: u64,
    pub footprint_bytes: Option<u64>,
    pub cpu_time_ms: u64,
}

/// The averages of one process over the window.
#[derive(Debug, Clone, Copy, PartialEq, Eq, Structural)]
pub struct ProcessStats {
    /// Mean processor use in millionths of a percent of one core, rounded down
    pub cpu_avg: u64,
    /// Processor time between the oldest and the newest sample: an amount
    pub cpu_time_delta_ms: u64,
    /// Mean resident memory, rounded down
    pub memory_avg_bytes: u64,
    /// The resident memory of all samples added up
    pub memory_sum_bytes: u128,
    /// Mean footprint, rounded down, when each sample has one
    pub footprint_avg_bytes: Option<u64>,
    /// The footprints of all samples added up, when each sample has one
    pub footprint_sum_bytes: Option<u128>,
    /// Time since the oldest sample
    pub span: Duration,
    /// How many samples the window holds
    pub samples: usize,
}

/// The sample that an observation made at `now` gives.
pub open spec fn sample_of(o: Observation, now: Instant) -> Sample {
    Sample {
        at: now,
        cpu: o.cpu,
        memory_bytes: o.memory_bytes,
        footprint_bytes: o.footprint_bytes,
        cpu_time_ms: o.cpu_time_ms,
    }
}

/// The samples that the observations of `pid` give, in order.
pub open spec fn observed(seen: Seq<Observation>, pid: u32, now: Instant) -> Seq<Sample>
    decreases seen.len(),
{
    if seen.len() == 0 {
        Seq::empty()
    } else if seen.last().pid == pid {
        observed(seen.drop_last(), pid, now).push(sample_of(seen.last(), now))
    } else {
        observed(seen.drop_last(), pid, now)
    }
}

/// Whether `pid` is among the observations.
pub open spec fn seen_pid(seen: Seq<Observation>, pid: u32) -> bool {
    exists|i: int| 0 <= i < seen.len() && #[trigger] seen[i].pid == pid
}

/// The samples without the oldest ones that are past the window.
pub open spec fn unexpired(samples: Seq<Sample>, now: Instant, window: Duration) -> Seq<Sample>
    decreases samples.len(),
{
    if samples.len() > 0 && nanos_since(now, samples[0].at) > window.nanos {
        unexpired(samples.drop_first(), now, window)
    } else {
        samples
    }
}

/// What the window held of `pid`.
pub open spec fn held(history: Map<u32, Seq<Sample>>, pid: u32) -> Seq<Sample> {
    if history.contains_key(pid) {
        history[pid]
    } else {
        Seq::empty()
    }
}

/// What the window holds of `pid` once the observations are in.
pub open spec fn refreshed(
    history: Map<u32, Seq<Sample>>,
    seen: Seq<Observation>,
    pid: u32,
    now: Instant,
    window: Duration,
) -> Seq<Sample> {
    unexpired(held(history, pid) + observed(seen, pid, now), now, window)
}

/// The whole history once the observations are in: the observed pids and no
/// others.
pub open spec fn history_after(
    history: Map<u32, Seq<Sample>>,
    seen: Seq<Observation>,
    now: Instant,
    window: Duration,
) -> Map<u32, Seq<Sample>> {
    Map::new(|pid: u32| seen_pid(seen, pid), |pid: u32| refreshed(history, seen, pid, now, window))
}

/// The processor use of all samples added up.
pub open spec fn cpu_sum(samples: Seq<Sample>) -> nat
    decreases samples.len(),
{
    if samples.len() == 0 {
        0
    } else {
        cpu_sum(samples.drop_last()) + samples.last().cpu as nat
    }
}

/// The resident memory of all samples added up.
pub open spec fn memory_sum(samples: Seq<Sample>) -> nat
    decreases samples.len(),
{
    if samples.len() == 0 {
        0
    } else {
        memory_sum(samples.drop_last()) + samples.last().memory_bytes as nat
    }
}

/// The footprints of all samples added up; nothing when one sample has none.
pub open spec fn footprint_sum(samples: Seq<Sample>) -> Option<nat>
    decreases samples.len(),
{
    if samples.len() == 0 {
        Some(0)
    } else {
        match (footprint_sum(samples.drop_last()), samples.last().footprint_bytes) {
            (Some(sum), Some(bytes)) => Some(sum + bytes as nat),
            _ => None,
        }
    }
}

/// How far a counter went from `first` to `last`; zero when it went back.
pub open spec fn advance(first: u64, last: u64) -> nat {
    if last >= first {
        (last - first) as nat
    } else {
        0
    }
}

/// The averages over a window that holds at least one sample.
pub open spec fn stats_of(samples: Seq<Sample>, now: Instant) -> ProcessStats {
    ProcessStats {
        cpu_avg: (cpu_sum(samples) / samples.len()) as u64,
        cpu_time_delta_ms: advance(samples[0].cpu_time_ms, samples.last().cpu_time_ms) as u64,
        memory_avg_bytes: (memory_sum(samples) / samples.len()) as u64,
        memory_sum_bytes: memory_sum(samples) as u128,
        footprint_avg_bytes: match footprint_sum(samples) {
            Some(sum) => Some((sum / samples.len()) as u64),
            None => None,
        },
        footprint_sum_bytes: match footprint_sum(samples) {
            Some(sum) => Some(sum as u128),
            None => None,
        },
        span: Duration { nanos: nanos_since(now, samples[0].at) as u128 },
        samples: samples.len() as usize,
    }
}

/// The averages of every observed pid.
pub open spec fn all_stats(
    history: Map<u32, Seq<Sample>>,
    seen: Seq<Observation>,
    now: Instant,
    window: Duration,
) -> Map<u32, ProcessStats> {
    Map::new(
        |pid: u32| seen_pid(seen, pid),
        |pid: u32| stats_of(refreshed(history, seen, pid, now, window), now),
    )
}

/// What is seen of a process.
pub open spec fn observation_of(p: ProcessSnapshot) -> Observation {
    Observation {
        pid: p.pid,
        cpu: p.cpu_usage_percent,
        memory_bytes: p.memory_bytes,
        footprint_bytes: p.phys_footprint_bytes,
        cpu_time_ms: p.cpu_time_ms,
    }
}

/// What is seen of a list of processes.
pub open spec fn observations(processes: Seq<ProcessSnapshot>) -> Seq<Observation> {
    processes.map_values(|p: ProcessSnapshot| observation_of(p))
}

/// A sample taken at `now` never expires at `now`, so what came before it may
/// be expired first.
proof fn lemma_expire_then_push(samples: Seq<Sample>, s: Sample, now: Instant, window: Duration)
    requires
        s.at == now,
    ensures
        unexpired(unexpired(samples, now, window).push(s), now, window) == unexpired(
            samples.push(s),
            now,
            window,
        ),
        unexpired(samples.push(s), now, window).len() >= 1,
    decreases samples.len(),
{
    if samples.len() > 0 && nanos_since(now, samples[0].at) > window.nanos {
        lemma_expire_then_push(samples.drop_first(), s, now, window);
        assert(samples.push(s).drop_first() =~= samples.drop_first().push(s));
    } else if samples.len() == 0 {
        assert(samples.push(s)[0] == s);
    }
}

/// The sums stay within the count times the largest value.
pub(crate) proof fn lemma_sums(samples: Seq<Sample>)
    ensures
        cpu_sum(samples) <= samples.len() * u64::MAX,
        memory_sum(samples) <= samples.len() * u64::MAX,
        footprint_sum(samples) is Some ==> footprint_sum(samples)->0 <= samples.len() * u64::MAX,
    decreases samples.len(),
{
    if samples.len() > 0 {
        lemma_sums(samples.drop_last());
        let n = samples.len() as int;
        assert(n * u64::MAX == (n - 1) * u64::MAX + u64::MAX) by (nonlinear_arith);
    }
}

/// Whether the sums of the averages are those of as many 64-bit values, and
/// there is at least one.
pub open spec fn bounded(stat: ProcessStats) -> bool {
    &&& stat.samples >= 1
    &&& stat.memory_sum_bytes <= stat.samples * u64::MAX
    &&& stat.footprint_sum_bytes is Some ==> stat.footprint_sum_bytes->0 <= stat.samples * u64::MAX
    &&& stat.footprint_sum_bytes is Some == stat.footprint_avg_bytes is Some
    &&& stat.memory_avg_bytes == stat.memory_sum_bytes / stat.samples as u128
    &&& stat.footprint_sum_bytes is Some ==> stat.footprint_avg_bytes->0
        == stat.footprint_sum_bytes->0 / stat.samples as u128
}

/// The averages of an observed pid are those of at least one sample.
pub proof fn lemma_stats_bounded(
    history: Map<u32, Seq<Sample>>,
    seen: Seq<Observation>,
    pid: u32,
    now: Instant,
    window: Duration,
)
    requires
        seen_pid(seen, pid),
        refreshed(history, seen, pid, now, window).len() <= usize::MAX,
    ensures
        bounded(all_stats(history, seen, now, window)[pid]),
{
    let samples = refreshed(history, seen, pid, now, window);
    lemma_seen_sample(seen, pid, now);
    let s = observed(seen, pid, now);
    let whole = held(history, pid) + s;
    assert(whole =~= whole.drop_last().push(s.last()));
    lemma_observed_now(seen, pid, now);
    lemma_expire_then_push(whole.drop_last(), s.last(), now, window);
    lemma_sums(samples);
    let n = samples.len();
    let m = memory_sum(samples);
    assert(n * u64::MAX <= u128::MAX) by (nonlinear_arith)
        requires
            n <= u64::MAX,
    ;
    assert(m / n <= u64::MAX) by (nonlinear_arith)
        requires
            n >= 1,
            m <= n * u64::MAX,
    ;
    if footprint_sum(samples) is Some {
        let f = footprint_sum(samples)->0;
        assert(f / n <= u64::MAX) by (nonlinear_arith)
            requires
                n >= 1,
                f <= n * u64::MAX,
        ;
    }
}

/// An observed pid has a sample.
proof fn lemma_seen_sample(seen: Seq<Observation>, pid: u32, now: Instant)
    requires
        seen_pid(seen, pid),
    ensures
        observed(seen, pid, now).len() >= 1,
    decreases seen.len(),
{
    let i = choose|i: int| 0 <= i < seen.len() && #[trigger] seen[i].pid == pid;
    if seen.last().pid != pid {
        assert(seen.drop_last()[i].pid == pid);
        lemma_seen_sample(seen.drop_last(), pid, now);
    }
}

/// Cuts the expired samples off the front.
fn expire(samples: &Vec<Sample>, now: Instant, window: Duration) -> (r: Vec<Sample>)
    ensures
        r@ == unexpired(samples@, now, window),
{
    let mut k: usize = 0;
    assert(samples@.skip(0) =~= samples@);
    while k < samples.len() && now.duration_since(samples[k].at).nanos > window.nanos
        invariant
            k <= samples.len(),
            unexpired(samples@, now, window) == unexpired(samples@.skip(k as int), now, window),
        decreases samples.len() - k,
    {
        assert(samples@.skip(k as int).drop_first() =~= samples@.skip(k as int + 1));
        k += 1;
    }
    let mut r: Vec<Sample> = Vec::new();
    for i in k..samples.len()
        invariant
            k <= samples.len(),
            r@ =~= samples@.subrange(k as int, i as int),
    {
        r.push(samples[i]);
    }
    assert(r@ =~= samples@.skip(k as int));
    r
}

/// The averages over the samples.
fn summarize(samples: &Vec<Sample>, now: Instant) -> (r: ProcessStats)
    requires
        samples@.len() >= 1,
    ensures
        r == stats_of(samples@, now),
{
    let mut cpu: u128 = 0;
    let mut memory: u128 = 0;
    let mut footprint: Option<u128> = Some(0);
    let n: usize = samples.len();
    for i in 0..n
        invariant
            n == samples.len(),
            cpu == cpu_sum(samples@.take(i as int)),
            memory == memory_sum(samples@.take(i as int)),
            footprint is Some == footprint_sum(samples@.take(i as int)) is Some,
            footprint is Some ==> footprint->0 == footprint_sum(samples@.take(i as int))->0,
    {
        let s = samples[i];
        proof {
            let t = samples@.take(i as int + 1);
            assert(t.drop_last() =~= samples@.take(i as int));
            lemma_sums(t);
            assert((i + 1) * u64::MAX <= u128::MAX) by (nonlinear_arith)
                requires
                    i + 1 <= u64::MAX,
            ;
        }
        cpu = cpu + s.cpu as u128;
        memory = memory + s.memory_bytes as u128;
        footprint = match (footprint, s.footprint_bytes) {
            (Some(sum), Some(bytes)) => Some(sum + bytes as u128),
            _ => None,
        };
    }
    proof {
        assert(samples@.take(n as int) =~= samples@);
        lemma_sums(samples@);
        assert(cpu / n as u128 <= u64::MAX) by (nonlinear_arith)
            requires
                n >= 1,
                cpu <= n * u64::MAX,
        ;
        if footprint is Some {
            let f = footprint->0;
            assert(f / n as u128 <= u64::MAX) by (nonlinear_arith)
                requires
                    n >= 1,
                    f <= n * u64::MAX,
            ;
        }
        assert(memory / n as u128 <= u64::MAX) by (nonlinear_arith)
            requires
                n >= 1,
                memory <= n * u64::MAX,
        ;
    }
    ProcessStats {
        cpu_avg: (cpu / n as u128) as u64,
        cpu_time_delta_ms: samples[n - 1].cpu_time_ms.saturating_sub(samples[0].cpu_time_ms),
        memory_avg_bytes: (memory / n as u128) as u64,
        memory_sum_bytes: memory,
        footprint_avg_bytes: match footprint {
            Some(sum) => Some((sum / n as u128) as u64),
            None => None,
        },
        footprint_sum_bytes: footprint,
        span: now.duration_since(samples[0].at),
        samples: n,
    }
}

/// The recent samples of each process.
pub struct ProcessWindows {
    window: Duration,
    history: HashMap<u32, Vec<Sample>>,
}

impl ProcessWindows {
    /// How far back the samples go.
    pub closed spec fn window(&self) -> Duration {
        self.window
    }

    /// The samples of each process, oldest first.
    pub closed spec fn history(&self) -> Map<u32, Seq<Sample>> {
        self.history@.map_values(|v: Vec<Sample>| v@)
    }

    /// An empty history over `window`.
    pub fn new(window: Duration) -> (r: ProcessWindows)
        ensures
            r.window() == window,
            r.history() == Map::<u32, Seq<Sample>>::empty(),
    {
        let r = ProcessWindows { window, history: HashMap::new() };
        assert(r.history() =~= Map::<u32, Seq<Sample>>::empty());
        r
    }

    /// Adds what was seen at `now` and returns the averages of each pid. A pid
    /// that was not seen is forgotten.
    pub fn observe(&mut self, now: Instant, seen: &Vec<Observation>) -> (r: HashMap<
        u32,
        ProcessStats,
    >)
        ensures
            final(self).window() == old(self).window(),
            final(self).history() == history_after(
                old(self).history(),
                seen@,
                now,
                old(self).window(),
            ),
            r@ == all_stats(old(self).history(), seen@, now, old(self).window()),
            forall|pid: u32| #[trigger] r@.contains_key(pid) ==> bounded(r@[pid]),
    {
        let ghost before = self.history();
        let window = self.window;
        let mut fresh: HashMap<u32, Vec<Sample>> = HashMap::new();
        let mut stats: HashMap<u32, ProcessStats> = HashMap::new();
        for i in 0..seen.len()
            invariant
                self.window == window,
                forall|pid: u32| #[trigger]
                    fresh@.contains_key(pid) <==> seen_pid(seen@.take(i as int), pid),
                forall|pid: u32| #[trigger]
                    stats@.contains_key(pid) <==> seen_pid(seen@.take(i as int), pid),
                forall|pid: u32| #[trigger]
                    fresh@.contains_key(pid) ==> fresh@[pid]@ == refreshed(
                        before,
                        seen@.take(i as int),
                        pid,
                        now,
                        window,
                    ),
                forall|pid: u32| #[trigger]
                    stats@.contains_key(pid) ==> stats@[pid] == stats_of(
                        refreshed(before, seen@.take(i as int), pid, now, window),
                        now,
                    ),
                forall|pid: u32| !seen_pid(seen@.take(i as int), pid) ==> (#[trigger]
                self.history@.contains_key(pid) <==> before.contains_key(pid)),
                forall|pid: u32|
                    !seen_pid(seen@.take(i as int), pid) && #[trigger] self.history@.contains_key(
                        pid,
                    ) ==> self.history@[pid]@ == before[pid],
        {
            let o = seen[i];
            let ghost done = seen@.take(i as int);
            let ghost next = seen@.take(i as int + 1);
            proof {
                assert(next.drop_last() =~= done);
                assert(next.last() == o);
                assert forall|pid: u32| seen_pid(next, pid) <==> seen_pid(done, pid) || pid
                    == o.pid by {
                    if seen_pid(done, pid) {
                        let j = choose|j: int| 0 <= j < done.len() && done[j].pid == pid;
                        assert(next[j].pid == pid);
                    }
                    if pid == o.pid {
                        assert(next[i as int].pid == pid);
                    }
                    if seen_pid(next, pid) && pid != o.pid {
                        let j = choose|j: int| 0 <= j < next.len() && next[j].pid == pid;
                        assert(done[j].pid == pid);
                    }
                }
            }
            let mut samples: Vec<Sample> = match fresh.remove(&o.pid) {
                Some(samples) => samples,
                None => match self.history.remove(&o.pid) {
                    Some(samples) => samples,
                    None => Vec::new(),
                },
            };
            let ghost had = samples@;
            let s = Sample {
                at: now,
                cpu: o.cpu,
                memory_bytes: o.memory_bytes,
                footprint_bytes: o.footprint_bytes,
                cpu_time_ms: o.cpu_time_ms,
            };
            samples.push(s);
            let kept = expire(&samples, now, window);
            proof {
                let whole = held(before, o.pid) + observed(done, o.pid, now);
                lemma_expire_then_push(whole, s, now, window);
                lemma_expire_then_push(held(before, o.pid), s, now, window);
                assert(whole.push(s) =~= held(before, o.pid) + observed(next, o.pid, now));
                if seen_pid(done, o.pid) {
                    assert(had == unexpired(whole, now, window));
                } else {
                    lemma_unseen(done, o.pid, now);
                    assert(whole =~= held(before, o.pid));
                    assert(had =~= held(before, o.pid));
                }
                assert(kept@ == refreshed(before, next, o.pid, now, window));
                assert forall|pid: u32| pid != o.pid implies observed(next, pid, now) == observed(
                    done,
                    pid,
                    now,
                ) by {}
            }
            stats.insert(o.pid, summarize(&kept, now));
            fresh.insert(o.pid, kept);
        }
        proof {
            assert(seen@.take(seen.len() as int) =~= seen@);
        }
        self.history = fresh;
        assert(self.history() =~= history_after(before, seen@, now, window));
        assert(stats@ =~= all_stats(before, seen@, now, window));
        proof {
            assert forall|pid: u32| #[trigger] stats@.contains_key(pid) implies bounded(
                stats@[pid],
            ) by {
                assert(self.history@.contains_key(pid));
                assert(self.history@[pid].len() <= usize::MAX);
                lemma_stats_bounded(before, seen@, pid, now, window);
            }
        }
        stats
    }

    /// Adds the processes seen at `now` and returns the averages of each pid. A
    /// pid that is absent is forgotten.
    pub fn record(&mut self, now: Instant, processes: &Vec<ProcessSnapshot>) -> (r: HashMap<
        u32,
        ProcessStats,
    >)
        ensures
            final(self).window() == old(self).window(),
            final(self).history() == history_after(
                old(self).history(),
                observations(processes@),
                now,
                old(self).window(),
            ),
            r@ == all_stats(
                old(self).history(),
                observations(processes@),
                now,
                old(self).window(),
            ),
            forall|pid: u32| #[trigger] r@.contains_key(pid) ==> bounded(r@[pid]),
    {
        let mut seen: Vec<Observation> = Vec::new();
        for i in 0..processes.len()
            invariant
                seen@ =~= observations(processes@.take(i as int)),
        {
            let p = &processes[i];
            seen.push(
                Observation {
                    pid: p.pid,
                    cpu: p.cpu_usage_percent,
                    memory_bytes: p.memory_bytes,
                    footprint_bytes: p.phys_footprint_bytes,
                    cpu_time_ms: p.cpu_time_ms,
                },
            );
        }
        assert(processes@.take(processes.len() as int) =~= processes@);
        self.observe(now, &seen)
    }
}

/// A pid that was not seen has no samples.
proof fn lemma_unseen(seen: Seq<Observation>, pid: u32, now: Instant)
    requires
        !seen_pid(seen, pid),
    ensures
        observed(seen, pid, now) == Seq::<Sample>::empty(),
    decreases seen.len(),
{
    if seen.len() > 0 {
        assert(seen[seen.len() - 1].pid != pid);
        assert forall|i: int| 0 <= i < seen.drop_last().len() implies #[trigger] seen.drop_last()[i].pid
            != pid by {
            assert(seen[i].pid != pid);
        }
        lemma_unseen(seen.drop_last(), pid, now);
    }
}

/// Whether the samples are in the order of time and none is later than `now`.
pub open spec fn in_order(samples: Seq<Sample>, now: Instant) -> bool {
    &&& forall|i: int, j: int|
        0 <= i <= j < samples.len() ==> (#[trigger] samples[i]).at.nanos <= (
        #[trigger] samples[j]).at.nanos
    &&& forall|i: int| 0 <= i < samples.len() ==> (#[trigger] samples[i]).at.nanos <= now.nanos
}

/// Every observation of `now` gives a sample of `now`.
proof fn lemma_observed_now(seen: Seq<Observation>, pid: u32, now: Instant)
    ensures
        forall|i: int|
            0 <= i < observed(seen, pid, now).len() ==> (#[trigger] observed(seen, pid, now)[i]).at
                == now,
    decreases seen.len(),
{
    if seen.len() > 0 {
        lemma_observed_now(seen.drop_last(), pid, now);
    }
}

/// Once the oldest samples past the window are gone, none past it is left.
proof fn lemma_unexpired_fresh(samples: Seq<Sample>, now: Instant, window: Duration)
    requires
        in_order(samples, now),
    ensures
        in_order(unexpired(samples, now, window), now),
        forall|i: int|
            0 <= i < unexpired(samples, now, window).len() ==> nanos_since(
                now,
                (#[trigger] unexpired(samples, now, window)[i]).at,
            ) <= window.nanos,
    decreases samples.len(),
{
    if samples.len() > 0 {
        if nanos_since(now, samples[0].at) > window.nanos {
            assert(in_order(samples.drop_first(), now));
            lemma_unexpired_fresh(samples.drop_first(), now, window);
        } else {
            assert forall|i: int| 0 <= i < samples.len() implies nanos_since(
                now,
                (#[trigger] samples[i]).at,
            ) <= window.nanos by {
                assert(samples[0].at.nanos <= samples[i].at.nanos);
            }
        }
    }
}

/// With a clock that does not run backwards, the window of every pid stays in
/// the order of time and holds no sample older than the window.
pub proof fn law_no_stale_samples(
    history: Map<u32, Seq<Sample>>,
    seen: Seq<Observation>,
    pid: u32,
    earlier: Instant,
    now: Instant,
    window: Duration,
)
    requires
        in_order(held(history, pid), earlier),
        earlier.nanos <= now.nanos,
    ensures
        in_order(refreshed(history, seen, pid, now, window), now),
        forall|i: int|
            0 <= i < refreshed(history, seen, pid, now, window).len() ==> nanos_since(
                now,
                (#[trigger] refreshed(history, seen, pid, now, window)[i]).at,
            ) <= window.nanos,
{
    lemma_observed_now(seen, pid, now);
    let past = held(history, pid);
    let whole = past + observed(seen, pid, now);
    assert(in_order(whole, now)) by {
        assert forall|i: int, j: int| 0 <= i <= j < whole.len() implies (
        #[trigger] whole[i]).at.nanos <= (#[trigger] whole[j]).at.nanos by {
            if j < past.len() {
                assert(past[i].at.nanos <= past[j].at.nanos);
            } else if i < past.len() {
                assert(past[i].at.nanos <= earlier.nanos);
            }
        }
        assert forall|i: int| 0 <= i < whole.len() implies (#[trigger] whole[i]).at.nanos
            <= now.nanos by {
            if i < past.len() {
                assert(past[i].at.nanos <= earlier.nanos);
            }
        }
    }
    lemma_unexpired_fresh(whole, now, window);
}

/// The sums of samples within bounds are within as many times the bounds.
proof fn lemma_sums_between(samples: Seq<Sample>, low: Sample, high: Sample)
    requires
        forall|i: int|
            0 <= i < samples.len() ==> low.cpu <= (#[trigger] samples[i]).cpu <= high.cpu
                && low.memory_bytes <= samples[i].memory_bytes <= high.memory_bytes,
    ensures
        samples.len() * low.cpu <= cpu_sum(samples) <= samples.len() * high.cpu,
        samples.len() * low.memory_bytes <= memory_sum(samples) <= samples.len()
            * high.memory_bytes,
    decreases samples.len(),
{
    if samples.len() > 0 {
        let rest = samples.drop_last();
        assert forall|i: int| 0 <= i < rest.len() implies low.cpu <= (#[trigger] rest[i]).cpu
            <= high.cpu && low.memory_bytes <= rest[i].memory_bytes <= high.memory_bytes by {
            assert(rest[i] == samples[i]);
        }
        lemma_sums_between(rest, low, high);
        let last = samples.last();
        assert(last == samples[samples.len() - 1]);
        let n = samples.len() as int;
        assert(n * low.cpu == (n - 1) * low.cpu + low.cpu) by (nonlinear_arith);
        assert(n * high.cpu == (n - 1) * high.cpu + high.cpu) by (nonlinear_arith);
        assert(n * low.memory_bytes == (n - 1) * low.memory_bytes + low.memory_bytes)
            by (nonlinear_arith);
        assert(n * high.memory_bytes == (n - 1) * high.memory_bytes + high.memory_bytes)
            by (nonlinear_arith);
    } else {
        assert(samples.len() * low.cpu == 0) by (nonlinear_arith)
            requires
                samples.len() == 0,
        ;
    }
}

/// An average lies among the values it is taken over: where all samples are
/// within bounds, so is their average, and where all are the same, it is that.
pub proof fn law_average_lies_among_the_samples(
    samples: Seq<Sample>,
    now: Instant,
    low: Sample,
    high: Sample,
)
    requires
        samples.len() > 0,
        forall|i: int|
            0 <= i < samples.len() ==> low.cpu <= (#[trigger] samples[i]).cpu <= high.cpu
                && low.memory_bytes <= samples[i].memory_bytes <= high.memory_bytes,
    ensures
        low.cpu <= stats_of(samples, now).cpu_avg <= high.cpu,
        low.memory_bytes <= stats_of(samples, now).memory_avg_bytes <= high.memory_bytes,
{
    lemma_sums_between(samples, low, high);
    let n = samples.len() as int;
    lemma_quotient_between(cpu_sum(samples) as int, n, low.cpu as int, high.cpu as int);
    lemma_quotient_between(
        memory_sum(samples) as int,
        n,
        low.memory_bytes as int,
        high.memory_bytes as int,
    );
}

/// A quotient is within the bounds that times the divisor bound the dividend.
proof fn lemma_quotient_between(sum: int, n: int, low: int, high: int)
    requires
        n > 0,
        n * low <= sum <= n * high,
    ensures
        low <= sum / n <= high,
{
    assert(low <= sum / n <= high) by (nonlinear_arith)
        requires
            n > 0,
            n * low <= sum <= n * high,
    ;
}

/// A pid that is absent from one observation starts anew afterwards: nothing of
/// its past is left.
pub proof fn law_absent_pid_is_forgotten(
    history: Map<u32, Seq<Sample>>,
    seen: Seq<Observation>,
    pid: u32,
    now: Instant,
    window: Duration,
)
    requires
        !seen_pid(seen, pid),
    ensures
        !history_after(history, seen, now, window).contains_key(pid),
        held(history_after(history, seen, now, window), pid) == Seq::<Sample>::empty(),
{
}

} // verus!
