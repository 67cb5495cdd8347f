//! Processor use from counters, and performance levels.
use vstd::prelude::*;
use vstd::string::*;
use crate::rate::capped64;
use crate::snapshot::PerfLevelSnapshot;
use crate::text::{decimal, number_text};
use crate::time::{Duration, NANOS_PER_MILLI};

verus! {

/// The nanoseconds of a millisecond times a whole in millionths of a percent.
pub const MILLI_PERCENT_UNITS: u128 = 100_000_000_000_000;

/// A whole, in millionths of a percent.
pub const WHOLE: u128 = 100_000_000;

/// A process's counter at a refresh.
#[derive(Debug, Clone, Copy, PartialEq, Eq, Structural)]
pub struct CpuTimeBaseline {
    pub cpu_time_ms: u64,
    pub start_time_secs: u64,
}

/// The share of one core that a process used between two samples, in millionths
/// of a percent, rounded down. A counter of another process, one that went back
/// and a span of less than a millisecond give zero.
pub open spec fn percent_of_core(
    prev: CpuTimeBaseline,
    current: CpuTimeBaseline,
    elapsed: Duration,
) -> u64 {
    if current.start_time_secs != prev.start_time_secs || current.cpu_time_ms < prev.cpu_time_ms
        || elapsed.nanos < NANOS_PER_MILLI {
        0
    } else {
        capped64(
            ((current.cpu_time_ms - prev.cpu_time_ms) * MILLI_PERCENT_UNITS / elapsed.nanos as int) as nat,
        )
    }
}

/// The share of one core that a process used between two samples.
pub fn percent_between(prev: &CpuTimeBaseline, current: &CpuTimeBaseline, elapsed: Duration) -> (r:
    u64)
    ensures
        r == percent_of_core(*prev, *current, elapsed),
{
    if current.start_time_secs != prev.start_time_secs || current.cpu_time_ms < prev.cpu_time_ms
        || elapsed.nanos < NANOS_PER_MILLI {
        return 0;
    }
    let used: u128 = (current.cpu_time_ms - prev.cpu_time_ms) as u128;
    let percent: u128 = used * MILLI_PERCENT_UNITS / elapsed.nanos;
    if percent > u64::MAX as u128 {
        u64::MAX
    } else {
        percent as u64
    }
}

/// An idle process uses nothing, and the counter of another process counts for
/// nothing.
pub proof fn law_idle_or_recycled_is_zero(
    prev: CpuTimeBaseline,
    current: CpuTimeBaseline,
    elapsed: Duration,
)
    requires
        current.cpu_time_ms == prev.cpu_time_ms || current.start_time_secs != prev.start_time_secs
            || current.cpu_time_ms < prev.cpu_time_ms,
    ensures
        percent_of_core(prev, current, elapsed) == 0,
{
    let n = elapsed.nanos as int;
    if n > 0 {
        assert(0int / n == 0);
    }
}

/// `used` as a percentage of `total`, in millionths, rounded down; zero when
/// there is no total.
pub open spec fn percent_ratio(used: u64, total: u64) -> u64 {
    if total == 0 {
        0
    } else {
        capped64((used * WHOLE / total as int) as nat)
    }
}

/// `used` as a percentage of `total`.
pub fn ratio_percent(used: u64, total: u64) -> (r: u64)
    ensures
        r == percent_ratio(used, total),
{
    if total == 0 {
        0
    } else {
        let percent: u128 = used as u128 * WHOLE / total as u128;
        if percent > u64::MAX as u128 {
            u64::MAX
        } else {
            percent as u64
        }
    }
}

/// Whether at least as many cores are busy as the threshold says. The threshold
/// is in millionths of a core, the usage in millionths of a percent of all
/// cores.
pub open spec fn boosted(threshold: Option<u64>, usage: u64, cores: u32) -> bool {
    threshold is Some && cores > 0 && threshold->0 > 0 && cores * usage >= threshold->0 * 100
}

/// Whether at least as many cores are busy as the threshold says.
pub fn process_boost_active(
    threshold_cores: Option<u64>,
    cpu_usage_percent: u64,
    logical_cores: u32,
) -> (r: bool)
    ensures
        r == boosted(threshold_cores, cpu_usage_percent, logical_cores),
{
    match threshold_cores {
        None => false,
        Some(threshold) => {
            assert(logical_cores * cpu_usage_percent <= u32::MAX * u64::MAX) by (nonlinear_arith)
                requires
                    logical_cores <= u32::MAX,
                    cpu_usage_percent <= u64::MAX,
            ;
            logical_cores > 0 && threshold > 0 && logical_cores as u128 * cpu_usage_percent as u128
                >= threshold as u128 * 100
        },
    }
}

/// Values added up.
pub open spec fn sum_of(s: Seq<u64>) -> nat
    decreases s.len(),
{
    if s.len() == 0 {
        0
    } else {
        sum_of(s.drop_last()) + s.last() as nat
    }
}

/// The cores of all levels.
pub open spec fn cores_in(levels: Seq<(String, u32)>) -> nat
    decreases levels.len(),
{
    if levels.len() == 0 {
        0
    } else {
        cores_in(levels.drop_last()) + levels.last().1 as nat
    }
}

/// The mean of some values, rounded down; zero for none.
pub open spec fn mean_of(s: Seq<u64>) -> u64 {
    if s.len() == 0 {
        0
    } else {
        (sum_of(s) / s.len()) as u64
    }
}

/// The usage of each level. The fastest level comes first while the cores of the
/// slowest are numbered first, so the levels read the cores from the end.
pub open spec fn level_usages(per_core: Seq<u64>, levels: Seq<(String, u32)>) -> Seq<
    PerfLevelSnapshot,
>
    decreases levels.len(),
{
    if levels.len() == 0 {
        Seq::empty()
    } else {
        let end = per_core.len() - cores_in(levels.drop_last());
        let level = levels.last();
        level_usages(per_core, levels.drop_last()).push(
            PerfLevelSnapshot {
                name: level.0,
                logical_cores: level.1,
                usage_percent: mean_of(per_core.subrange(end - level.1, end)),
            },
        )
    }
}

/// The cores of the first levels are no more than those of all.
proof fn lemma_cores_prefix(levels: Seq<(String, u32)>, k: int)
    requires
        0 <= k <= levels.len(),
    ensures
        cores_in(levels.take(k)) <= cores_in(levels),
    decreases levels.len(),
{
    if k == levels.len() {
        assert(levels.take(k) =~= levels);
    } else {
        lemma_cores_prefix(levels.drop_last(), k);
        assert(levels.drop_last().take(k) =~= levels.take(k));
    }
}

/// The sum of values is at most their number times the largest value.
proof fn lemma_sum_bound(s: Seq<u64>)
    ensures
        sum_of(s) <= s.len() * u64::MAX,
    decreases s.len(),
{
    if s.len() > 0 {
        lemma_sum_bound(s.drop_last());
        let n = s.len() as int;
        assert(n * u64::MAX == (n - 1) * u64::MAX + u64::MAX) by (nonlinear_arith);
    }
}

/// The mean of the values `from..to`.
fn mean(values: &Vec<u64>, from: usize, to: usize) -> (r: u64)
    requires
        from <= to <= values@.len(),
    ensures
        r == mean_of(values@.subrange(from as int, to as int)),
{
    if from == to {
        return 0;
    }
    let mut sum: u128 = 0;
    for i in from..to
        invariant
            from <= to <= values@.len(),
            sum == sum_of(values@.subrange(from as int, i as int)),
    {
        proof {
            let next = values@.subrange(from as int, i as int + 1);
            assert(next.drop_last() =~= values@.subrange(from as int, i as int));
            lemma_sum_bound(next);
            assert(next.len() * u64::MAX <= u128::MAX) by (nonlinear_arith)
                requires
                    next.len() <= u64::MAX,
            ;
        }
        sum = sum + values[i] as u128;
    }
    let n: u128 = (to - from) as u128;
    proof {
        let all = values@.subrange(from as int, to as int);
        lemma_sum_bound(all);
        assert(sum / n <= u64::MAX) by (nonlinear_arith)
            requires
                n >= 1,
                sum <= n * u64::MAX,
        ;
    }
    (sum / n) as u64
}

/// The usage of each performance level. There is none unless there are at least
/// two levels and they cover the cores exactly.
pub fn split_perf_levels(per_core: &Vec<u64>, levels: &Vec<(String, u32)>) -> (r: Option<
    Vec<PerfLevelSnapshot>,
>)
    ensures
        r is Some == (levels@.len() >= 2 && cores_in(levels@) == per_core@.len()
            && per_core@.len() > 0),
        r is Some ==> r->0@ == level_usages(per_core@, levels@),
{
    if levels.len() < 2 {
        return None;
    }
    let mut total: u128 = 0;
    for i in 0..levels.len()
        invariant
            total == cores_in(levels@.take(i as int)),
            total <= i * u32::MAX,
    {
        assert(levels@.take(i as int + 1).drop_last() =~= levels@.take(i as int));
        assert(i * u32::MAX + u32::MAX == (i + 1) * u32::MAX) by (nonlinear_arith);
        assert(i * u32::MAX <= u64::MAX * u32::MAX) by (nonlinear_arith)
            requires
                i <= u64::MAX,
        ;
        total = total + levels[i].1 as u128;
    }
    assert(levels@.take(levels.len() as int) =~= levels@);
    if total != per_core.len() as u128 || per_core.len() == 0 {
        return None;
    }
    let mut out: Vec<PerfLevelSnapshot> = Vec::new();
    let mut end: usize = per_core.len();
    for i in 0..levels.len()
        invariant
            cores_in(levels@) == per_core@.len(),
            end == per_core@.len() - cores_in(levels@.take(i as int)),
            out@ == level_usages(per_core@, levels@.take(i as int)),
    {
        let level = &levels[i];
        proof {
            assert(levels@.take(i as int + 1).drop_last() =~= levels@.take(i as int));
            lemma_cores_prefix(levels@, i as int + 1);
        }
        let start: usize = end - level.1 as usize;
        out.push(
            PerfLevelSnapshot {
                name: level.0.clone(),
                logical_cores: level.1,
                usage_percent: mean(per_core, start, end),
            },
        );
        end = start;
    }
    Some(out)
}

/// The name of a level: as reported, or its number.
pub open spec fn level_name(i: int, name: Option<String>) -> Seq<char> {
    match name {
        Some(name) => name@,
        None => "level"@ + decimal(i as nat),
    }
}

/// Whether a level's core count is one: reported, not zero, and of 32 bits.
pub open spec fn counts_cores(cores: Option<u64>) -> bool {
    cores is Some && 0 < cores->0 <= u32::MAX
}

/// Whether the readings name at least two levels, each with cores.
pub open spec fn levels_readable(count: Option<u64>, readings: Seq<(Option<u64>, Option<String>)>) -> bool {
    &&& count is Some
    &&& count->0 >= 2
    &&& count->0 <= readings.len()
    &&& forall|i: int| 0 <= i < count->0 ==> counts_cores((#[trigger] readings[i]).0)
}

/// The performance levels from what the system reports: how many there are, and
/// the cores and the name of each. There are none where anything is missing.
pub fn detect_perf_levels(
    count: Option<u64>,
    readings: &Vec<(Option<u64>, Option<String>)>,
) -> (r: Vec<(String, u32)>)
    ensures
        !levels_readable(count, readings@) ==> r@.len() == 0,
        levels_readable(count, readings@) ==> {
            &&& r@.len() == count->0
            &&& forall|i: int|
                0 <= i < r@.len() ==> (#[trigger] r@[i]).0@ == level_name(i, readings@[i].1) && r@[i].1
                    == readings@[i].0->0
        },
{
    let n: u64 = match count {
        Some(n) => n,
        None => {
            return Vec::new();
        },
    };
    if n < 2 || n > readings.len() as u64 {
        return Vec::new();
    }
    let mut levels: Vec<(String, u32)> = Vec::new();
    for i in 0..n as usize
        invariant
            n <= readings@.len(),
            count == Some(n),
            levels@.len() == i,
            forall|j: int| 0 <= j < i ==> counts_cores((#[trigger] readings@[j]).0),
            forall|j: int|
                0 <= j < i ==> (#[trigger] levels@[j]).0@ == level_name(j, readings@[j].1)
                    && levels@[j].1 == readings@[j].0->0,
    {
        let cores: u64 = match readings[i].0 {
            Some(cores) => cores,
            None => {
                assert(!counts_cores(readings@[i as int].0));
                return Vec::new();
            },
        };
        if cores == 0 || cores > u32::MAX as u64 {
            assert(!counts_cores(readings@[i as int].0));
            return Vec::new();
        }
        let name = match &readings[i].1 {
            Some(name) => name.clone(),
            None => "level".to_owned().concat(number_text(i as u128).as_str()),
        };
        levels.push((name, cores as u32));
    }
    levels
}

/// The compressor's bytes and the kernel's pressure level, from what the system
/// reports. A level that does not fit is dropped.
pub fn memory_pressure(compressed: Option<u64>, level: Option<u64>) -> (r: (
    Option<u64>,
    Option<u32>,
))
    ensures
        r.0 == compressed,
        r.1 == match level {
            Some(v) => if v <= u32::MAX {
                Some(v as u32)
            } else {
                None
            },
            None => None,
        },
{
    let fitting: Option<u32> = match level {
        Some(v) => if v <= u32::MAX as u64 {
            Some(v as u32)
        } else {
            None
        },
        None => None,
    };
    (compressed, fitting)
}

} // verus!
