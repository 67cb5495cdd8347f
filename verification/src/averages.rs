//! What the averages of a window are, over a run of observations.
use vstd::prelude::*;
use crate::rolling::{
    all_stats, cpu_sum, footprint_sum, held, history_after, in_order, lemma_sums, memory_sum,
    observed, seen_pid, stats_of, unexpired, Observation, ProcessStats, Sample,
};
use crate::time::{nanos_since, Duration, Instant};

verus! {

/// What was seen at one time.
pub ghost struct Sighting {
    pub now: Instant,
    pub seen: Seq<Observation>,
}

/// What an empty window holds after the sightings.
pub open spec fn after_sightings(run: Seq<Sighting>, window: Duration) -> Map<u32, Seq<Sample>>
    decreases run.len(),
{
    if run.len() == 0 {
        Map::empty()
    } else {
        history_after(
            after_sightings(run.drop_last(), window),
            run.last().seen,
            run.last().now,
            window,
        )
    }
}

/// The averages that the last of the sightings gives.
pub open spec fn last_averages(run: Seq<Sighting>, window: Duration) -> Map<u32, ProcessStats> {
    all_stats(
        after_sightings(run.drop_last(), window),
        run.last().seen,
        run.last().now,
        window,
    )
}

/// Whether the clock never goes back.
pub open spec fn clock_runs_on(run: Seq<Sighting>) -> bool {
    forall|i: int, j: int|
        0 <= i <= j < run.len() ==> (#[trigger] run[i]).now.nanos <= (
        #[trigger] run[j]).now.nanos
}

/// One sample for each observation of `pid`, in their order.
pub open spec fn samples_in(seen: Seq<Observation>, pid: u32, now: Instant) -> Seq<Sample>
    decreases seen.len(),
{
    if seen.len() == 0 {
        Seq::empty()
    } else {
        let before = samples_in(seen.drop_last(), pid, now);
        let o = seen.last();
        if o.pid != pid {
            before
        } else {
            before.push(
                Sample {
                    at: now,
                    cpu: o.cpu,
                    memory_bytes: o.memory_bytes,
                    footprint_bytes: o.footprint_bytes,
                    cpu_time_ms: o.cpu_time_ms,
                },
            )
        }
    }
}

/// The samples of `pid` since it was last absent.
pub open spec fn since_absent(run: Seq<Sighting>, pid: u32) -> Seq<Sample>
    decreases run.len(),
{
    if run.len() == 0 {
        Seq::empty()
    } else {
        let new = samples_in(run.last().seen, pid, run.last().now);
        if new.len() == 0 {
            Seq::empty()
        } else {
            since_absent(run.drop_last(), pid) + new
        }
    }
}

/// The samples that are at most `nanos` old at `now`.
pub open spec fn no_older(samples: Seq<Sample>, now: Instant, nanos: u128) -> Seq<Sample>
    decreases samples.len(),
{
    if samples.len() == 0 {
        Seq::empty()
    } else {
        let before = no_older(samples.drop_last(), now, nanos);
        if samples.last().at.nanos + nanos >= now.nanos {
            before.push(samples.last())
        } else {
            before
        }
    }
}

/// A figure of every sample, added up.
pub open spec fn added(samples: Seq<Sample>, figure: spec_fn(Sample) -> int) -> int
    decreases samples.len(),
{
    if samples.len() == 0 {
        0
    } else {
        added(samples.drop_last(), figure) + figure(samples.last())
    }
}

/// Whether `mean` is the arithmetic mean of a figure over the samples, rounded
/// down.
pub open spec fn is_mean(mean: u64, samples: Seq<Sample>, figure: spec_fn(Sample) -> int) -> bool {
    mean * samples.len() <= added(samples, figure) < (mean + 1) * samples.len()
}

/// The footprint of a sample, or nothing.
pub open spec fn footprint_in(s: Sample) -> int {
    match s.footprint_bytes {
        Some(bytes) => bytes as int,
        None => 0,
    }
}

/// Whether the averages are those of the samples: the arithmetic means of the
/// processor use, of the memory and, where every sample has one, of the footprint;
/// how far the counter of processor time went from the first to the last; and how
/// long ago the first was.
pub open spec fn averages_of(stats: ProcessStats, samples: Seq<Sample>, now: Instant) -> bool {
    let first = samples[0];
    let last = samples[samples.len() - 1];
    let footprints = forall|i: int|
        0 <= i < samples.len() ==> (#[trigger] samples[i]).footprint_bytes is Some;
    &&& stats.samples == samples.len()
    &&& is_mean(stats.cpu_avg, samples, |s: Sample| s.cpu as int)
    &&& is_mean(stats.memory_avg_bytes, samples, |s: Sample| s.memory_bytes as int)
    &&& stats.memory_sum_bytes == added(samples, |s: Sample| s.memory_bytes as int)
    &&& stats.footprint_avg_bytes is Some <==> footprints
    &&& stats.footprint_sum_bytes is Some <==> footprints
    &&& footprints ==> is_mean(
        stats.footprint_avg_bytes->0,
        samples,
        |s: Sample| footprint_in(s),
    )
    &&& footprints ==> stats.footprint_sum_bytes->0 == added(
        samples,
        |s: Sample| footprint_in(s),
    )
    &&& stats.cpu_time_delta_ms == if last.cpu_time_ms >= first.cpu_time_ms {
        last.cpu_time_ms - first.cpu_time_ms
    } else {
        0
    }
    &&& stats.span.nanos == if now.nanos >= first.at.nanos {
        now.nanos - first.at.nanos
    } else {
        0
    }
}

/// The observations of a pid, and whether there are any.
pub(crate) proof fn lemma_samples_in(seen: Seq<Observation>, pid: u32, now: Instant)
    ensures
        observed(seen, pid, now) == samples_in(seen, pid, now),
        seen_pid(seen, pid) <==> samples_in(seen, pid, now).len() > 0,
        forall|i: int|
            0 <= i < samples_in(seen, pid, now).len() ==> (#[trigger] samples_in(
                seen,
                pid,
                now,
            )[i]).at == now,
    decreases seen.len(),
{
    if seen.len() > 0 {
        let rest = seen.drop_last();
        lemma_samples_in(rest, pid, now);
        if seen_pid(seen, pid) {
            let i = choose|i: int| 0 <= i < seen.len() && #[trigger] seen[i].pid == pid;
            if i < rest.len() {
                assert(rest[i].pid == pid);
            }
        }
        if seen_pid(rest, pid) {
            let i = choose|i: int| 0 <= i < rest.len() && #[trigger] rest[i].pid == pid;
            assert(seen[i].pid == pid);
        }
        if seen.last().pid == pid {
            assert(seen[seen.len() - 1].pid == pid);
        }
    }
}

/// Samples that have expired once stay expired.
pub(crate) proof fn lemma_expire_twice(
    samples: Seq<Sample>,
    more: Seq<Sample>,
    early: Instant,
    late: Instant,
    window: Duration,
)
    requires
        early.nanos <= late.nanos,
    ensures
        unexpired(unexpired(samples, early, window) + more, late, window) == unexpired(
            samples + more,
            late,
            window,
        ),
    decreases samples.len(),
{
    if samples.len() > 0 && nanos_since(early, samples[0].at) > window.nanos {
        lemma_expire_twice(samples.drop_first(), more, early, late, window);
        assert((samples + more).drop_first() =~= samples.drop_first() + more);
        assert((samples + more)[0] == samples[0]);
    }
}

/// A first sample more.
proof fn lemma_no_older_first(samples: Seq<Sample>, now: Instant, nanos: u128)
    requires
        samples.len() > 0,
    ensures
        no_older(samples, now, nanos) == if samples[0].at.nanos + nanos >= now.nanos {
            seq![samples[0]] + no_older(samples.drop_first(), now, nanos)
        } else {
            no_older(samples.drop_first(), now, nanos)
        },
    decreases samples.len(),
{
    let rest = samples.drop_first();
    if rest.len() == 0 {
        assert(samples.drop_last() =~= Seq::<Sample>::empty());
        assert(no_older(samples.drop_last(), now, nanos) =~= Seq::<Sample>::empty());
        assert(no_older(rest, now, nanos) =~= Seq::<Sample>::empty());
        assert(seq![samples[0]] + Seq::<Sample>::empty() =~= Seq::<Sample>::empty().push(
            samples[0],
        ));
    } else {
        lemma_no_older_first(samples.drop_last(), now, nanos);
        assert(samples.drop_last().drop_first() =~= rest.drop_last());
        assert(samples.last() == rest.last());
        let before = no_older(rest.drop_last(), now, nanos);
        assert(seq![samples[0]] + before.push(samples.last()) =~= (seq![samples[0]] + before).push(
            samples.last(),
        ));
    }
}

/// In the order of time, what is left once the oldest are gone is what is not
/// too old.
pub(crate) proof fn lemma_unexpired(samples: Seq<Sample>, now: Instant, window: Duration)
    requires
        in_order(samples, now),
    ensures
        unexpired(samples, now, window) == no_older(samples, now, window.nanos),
    decreases samples.len(),
{
    if samples.len() > 0 {
        lemma_no_older_first(samples, now, window.nanos);
        let rest = samples.drop_first();
        assert(in_order(rest, now)) by {
            assert forall|i: int, j: int| 0 <= i <= j < rest.len() implies (
            #[trigger] rest[i]).at.nanos <= (#[trigger] rest[j]).at.nanos by {
                assert(samples[i + 1].at.nanos <= samples[j + 1].at.nanos);
            }
        }
        lemma_unexpired(rest, now, window);
        if nanos_since(now, samples[0].at) <= window.nanos {
            if rest.len() > 0 {
                assert(samples[0].at.nanos <= samples[1].at.nanos);
                assert(rest[0] == samples[1]);
            }
            assert(unexpired(rest, now, window) == rest);
            assert(seq![samples[0]] + rest =~= samples);
        }
    } else {
        assert(samples =~= Seq::<Sample>::empty());
    }
}

/// The samples since a pid was last absent are in the order of time.
pub(crate) proof fn lemma_since_absent(run: Seq<Sighting>, pid: u32)
    requires
        clock_runs_on(run),
        run.len() > 0,
    ensures
        in_order(since_absent(run, pid), run.last().now),
    decreases run.len(),
{
    let before = run.drop_last();
    let now = run.last().now;
    let new = samples_in(run.last().seen, pid, now);
    lemma_samples_in(run.last().seen, pid, now);
    if before.len() > 0 {
        assert(clock_runs_on(before));
        lemma_since_absent(before, pid);
        assert(before.last() == run[run.len() - 2]);
        assert(run[run.len() - 2].now.nanos <= run[run.len() - 1].now.nanos);
    }
    let old = since_absent(before, pid);
    let whole = since_absent(run, pid);
    if new.len() > 0 {
        assert forall|i: int, j: int| 0 <= i <= j < whole.len() implies (
        #[trigger] whole[i]).at.nanos <= (#[trigger] whole[j]).at.nanos by {
            if j < old.len() {
                assert(old[i].at.nanos <= old[j].at.nanos);
            } else if i < old.len() {
                assert(old[i].at.nanos <= before.last().now.nanos);
                assert(whole[j] == new[j - old.len()]);
            } else {
                assert(whole[i] == new[i - old.len()]);
                assert(whole[j] == new[j - old.len()]);
            }
        }
        assert forall|i: int| 0 <= i < whole.len() implies (#[trigger] whole[i]).at.nanos
            <= now.nanos by {
            if i < old.len() {
                assert(old[i].at.nanos <= before.last().now.nanos);
            } else {
                assert(whole[i] == new[i - old.len()]);
            }
        }
    }
}

/// What a window holds of a pid at a later time is what is left then of its
/// samples since it was last absent.
proof fn lemma_held(
    run: Seq<Sighting>,
    window: Duration,
    pid: u32,
    more: Seq<Sample>,
    late: Instant,
)
    requires
        clock_runs_on(run),
        run.len() > 0 ==> run.last().now.nanos <= late.nanos,
    ensures
        unexpired(held(after_sightings(run, window), pid) + more, late, window) == unexpired(
            since_absent(run, pid) + more,
            late,
            window,
        ),
    decreases run.len(),
{
    if run.len() > 0 {
        let before = run.drop_last();
        let now = run.last().now;
        let seen = run.last().seen;
        lemma_samples_in(seen, pid, now);
        assert(before.len() > 0 ==> before.last() == run[before.len() - 1]);
        assert(run.last() == run[run.len() - 1]);
        if seen_pid(seen, pid) {
            let new = observed(seen, pid, now);
            lemma_held(before, window, pid, new + more, late);
            let past = held(after_sightings(before, window), pid);
            lemma_expire_twice(past + new, more, now, late, window);
            assert(past + new + more =~= past + (new + more));
            assert(since_absent(before, pid) + new + more =~= since_absent(before, pid) + (new
                + more));
        }
    }
}

/// The folds over samples agree.
proof fn lemma_added(samples: Seq<Sample>)
    ensures
        cpu_sum(samples) == added(samples, |s: Sample| s.cpu as int),
        memory_sum(samples) == added(samples, |s: Sample| s.memory_bytes as int),
        footprint_sum(samples) is Some <==> forall|i: int|
            0 <= i < samples.len() ==> (#[trigger] samples[i]).footprint_bytes is Some,
        footprint_sum(samples) is Some ==> footprint_sum(samples)->0 == added(
            samples,
            |s: Sample| footprint_in(s),
        ),
    decreases samples.len(),
{
    if samples.len() > 0 {
        let rest = samples.drop_last();
        lemma_added(rest);
        assert(samples.last() == samples[samples.len() - 1]);
        if footprint_sum(samples) is Some {
            assert forall|i: int| 0 <= i < samples.len() implies (
            #[trigger] samples[i]).footprint_bytes is Some by {
                if i < rest.len() {
                    assert(rest[i].footprint_bytes is Some);
                }
            }
        }
        if forall|i: int| 0 <= i < samples.len() ==> (#[trigger] samples[i]).footprint_bytes is Some {
            assert forall|i: int| 0 <= i < rest.len() implies (
            #[trigger] rest[i]).footprint_bytes is Some by {
                assert(samples[i].footprint_bytes is Some);
            }
        }
    }
}

/// A quotient rounded down.
proof fn lemma_quotient(sum: int, n: int)
    requires
        n > 0,
        0 <= sum <= n * u64::MAX,
    ensures
        0 <= sum / n <= u64::MAX,
        (sum / n) * n <= sum < (sum / n + 1) * n,
{
    assert(0 <= sum / n <= u64::MAX && (sum / n) * n <= sum < (sum / n + 1) * n)
        by (nonlinear_arith)
        requires
            n > 0,
            0 <= sum <= n * u64::MAX,
    ;
}

/// The averages over at least one sample are those of the samples.
pub(crate) proof fn lemma_averages(samples: Seq<Sample>, now: Instant)
    requires
        0 < samples.len() <= usize::MAX,
    ensures
        averages_of(stats_of(samples, now), samples, now),
{
    lemma_added(samples);
    lemma_sums(samples);
    let n = samples.len() as int;
    lemma_quotient(cpu_sum(samples) as int, n);
    lemma_quotient(memory_sum(samples) as int, n);
    assert(n * u64::MAX <= u128::MAX) by (nonlinear_arith)
        requires
            n <= u64::MAX,
    ;
    if footprint_sum(samples) is Some {
        lemma_quotient(footprint_sum(samples)->0 as int, n);
    }
}

/// After any run of observations, the averages of a pid are the arithmetic means
/// over all of its samples since it was last absent that are no older than the
/// window, those just taken among them. There are averages of exactly the pids
/// that were just seen.
pub proof fn law_averages_over_a_run(run: Seq<Sighting>, window: Duration, pid: u32)
    requires
        run.len() > 0,
        clock_runs_on(run),
        since_absent(run, pid).len() <= usize::MAX,
    ensures
        ({
            let now = run.last().now;
            let stats = last_averages(run, window);
            let samples = no_older(since_absent(run, pid), now, window.nanos);
            &&& stats.contains_key(pid) <==> exists|i: int|
                0 <= i < run.last().seen.len() && (#[trigger] run.last().seen[i]).pid == pid
            &&& stats.contains_key(pid) ==> samples.len() > 0 && averages_of(
                stats[pid],
                samples,
                now,
            )
        }),
{
    let before = run.drop_last();
    let now = run.last().now;
    let seen = run.last().seen;
    lemma_samples_in(seen, pid, now);
    assert(before.len() > 0 ==> before.last() == run[before.len() - 1]);
    assert(run.last() == run[run.len() - 1]);
    if seen_pid(seen, pid) {
        let new = observed(seen, pid, now);
        lemma_held(before, window, pid, new, now);
        lemma_since_absent(run, pid);
        let whole = since_absent(run, pid);
        lemma_unexpired(whole, now, window);
        let samples = no_older(whole, now, window.nanos);
        lemma_no_older_len(whole, now, window.nanos);
        assert(whole.last() == new.last());
        assert(new.last() == new[new.len() - 1]);
        lemma_averages(samples, now);
    }
}

/// No more samples are left than there were, and the last one where it is new.
pub(crate) proof fn lemma_no_older_len(samples: Seq<Sample>, now: Instant, nanos: u128)
    ensures
        no_older(samples, now, nanos).len() <= samples.len(),
        samples.len() > 0 && samples.last().at == now ==> no_older(samples, now, nanos).len() > 0,
    decreases samples.len(),
{
    if samples.len() > 0 {
        lemma_no_older_len(samples.drop_last(), now, nanos);
    }
}

} // verus!
