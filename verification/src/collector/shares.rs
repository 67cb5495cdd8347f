//! Shares and means, as the snapshot shows them.
use vstd::prelude::*;
use super::cpu::{cores_in, level_usages, percent_of_core, percent_ratio, sum_of, CpuTimeBaseline};
use super::sensors::{hottest_first, readable, Hottest, RawSensor};
use super::totals::{
    disk_reads, disk_writes, known_sum, plain_sum, read_ops, received, totals, transmitted, write_ops,
};
use crate::order::{
    count, law_arranged_is_in_order, law_arranged_keeps_values, lemma_arranged_contains,
    lemma_count_arranged, lemma_count_monotone, weak_order, Order,
};
use crate::rate::capped64;
use crate::snapshot::{DiskSnapshot, DriveSnapshot, NetworkSnapshot, TemperatureSnapshot};
use crate::time::Duration;

verus! {

/// Whether `q` is `a` divided by `b`, rounded down, or the largest number of 64 bits
/// where that is more.
pub open spec fn is_quotient(q: u64, a: int, b: int) -> bool {
    if a >= 0x1_0000_0000_0000_0000 * b {
        q == 0xffff_ffff_ffff_ffff
    } else {
        q * b <= a < (q + 1) * b
    }
}

/// A quotient, kept to 64 bits.
pub(crate) proof fn lemma_quotient(a: int, b: int)
    requires
        a >= 0,
        b > 0,
    ensures
        is_quotient(capped64((a / b) as nat), a, b),
{
    let q = a / b;
    assert(0 <= q && q * b <= a < (q + 1) * b) by (nonlinear_arith)
        requires
            b > 0,
            a >= 0,
            q == a / b,
    ;
    let most = 0x1_0000_0000_0000_0000int;
    assert(q >= most <==> a >= most * b) by (nonlinear_arith)
        requires
            b > 0,
            q * b <= a < (q + 1) * b,
    ;
}

/// Whether `p` is the share of one core that a process used between two readings
/// of its counter of processor time, in milliseconds: a whole core over all of the
/// time is one hundred percent, in millionths. What has the pid of another process,
/// a counter that went back, and a time of less than a millisecond give zero.
pub open spec fn is_usage(
    p: u64,
    before_ms: u64,
    before_start: u64,
    now_ms: u64,
    now_start: u64,
    nanos: u128,
) -> bool {
    if now_start != before_start || now_ms < before_ms || nanos < 1_000_000 {
        p == 0
    } else {
        is_quotient(p, (now_ms - before_ms) * 1_000_000 * 100_000_000, nanos as int)
    }
}

/// The processor use of a process is the share of one core that its counter
/// advanced by.
pub proof fn law_usage_is_the_share_of_a_core(
    prev: CpuTimeBaseline,
    current: CpuTimeBaseline,
    elapsed: Duration,
)
    ensures
        is_usage(
            percent_of_core(prev, current, elapsed),
            prev.cpu_time_ms,
            prev.start_time_secs,
            current.cpu_time_ms,
            current.start_time_secs,
            elapsed.nanos,
        ),
{
    if current.start_time_secs == prev.start_time_secs && current.cpu_time_ms >= prev.cpu_time_ms
        && elapsed.nanos >= 1_000_000 {
        lemma_quotient(
            (current.cpu_time_ms - prev.cpu_time_ms) * 100_000_000_000_000,
            elapsed.nanos as int,
        );
    }
}

/// Whether `p` is the share that `used` is of `total`, in millionths of a percent,
/// rounded down; zero of nothing.
pub open spec fn is_share(p: u64, used: u64, total: u64) -> bool {
    if total == 0 {
        p == 0
    } else {
        is_quotient(p, used * 100_000_000, total as int)
    }
}

/// A percentage is the share of the total.
pub proof fn law_percentage_is_the_share(used: u64, total: u64)
    ensures
        is_share(percent_ratio(used, total), used, total),
{
    if total > 0 {
        lemma_quotient(used * 100_000_000, total as int);
    }
}

/// What `figure` says of the items, added up; nothing counts as zero.
pub open spec fn rates_added<T>(items: Seq<T>, figure: spec_fn(T) -> Option<u64>) -> int
    decreases items.len(),
{
    if items.len() == 0 {
        0
    } else {
        rates_added(items.drop_last(), figure) + match figure(items.last()) {
            Some(rate) => rate as int,
            None => 0,
        }
    }
}

/// Whether a total is that of the figures that are known: there is one exactly if
/// one of them is.
pub open spec fn is_known_total<T>(
    total: Option<u64>,
    items: Option<Seq<T>>,
    figure: spec_fn(T) -> Option<u64>,
) -> bool {
    &&& total is Some <==> items is Some && exists|i: int|
        0 <= i < items->0.len() && figure(#[trigger] items->0[i]) is Some
    &&& total is Some ==> total->0 == if rates_added(items->0, figure) <= 0xffff_ffff_ffff_ffff {
        rates_added(items->0, figure)
    } else {
        0xffff_ffff_ffff_ffff
    }
}

/// The known figures, added up.
proof fn lemma_known<T>(items: Seq<T>, figure: spec_fn(T) -> Option<u64>, rates: Seq<Option<u64>>)
    requires
        rates.len() == items.len(),
        forall|i: int| 0 <= i < items.len() ==> #[trigger] rates[i] == figure(items[i]),
    ensures
        known_sum(rates) is Some <==> exists|i: int|
            0 <= i < items.len() && figure(#[trigger] items[i]) is Some,
        rates_added(items, figure) == if known_sum(rates) is Some {
            known_sum(rates)->0 as int
        } else {
            0
        },
    decreases items.len(),
{
    if items.len() > 0 {
        let rest = items.drop_last();
        let fewer = rates.drop_last();
        assert forall|i: int| 0 <= i < rest.len() implies #[trigger] fewer[i] == figure(rest[i]) by {
            assert(rates[i] == figure(items[i]));
        }
        lemma_known(rest, figure, fewer);
        let n = items.len() - 1;
        assert(rates[n] == figure(items[n]));
        assert(items.last() == items[n] && rates.last() == rates[n]);
        if exists|i: int| 0 <= i < rest.len() && figure(#[trigger] rest[i]) is Some {
            let i = choose|i: int| 0 <= i < rest.len() && figure(#[trigger] rest[i]) is Some;
            assert(figure(items[i]) is Some);
        }
        if exists|i: int| 0 <= i < items.len() && figure(#[trigger] items[i]) is Some {
            let i = choose|i: int| 0 <= i < items.len() && figure(#[trigger] items[i]) is Some;
            if i < rest.len() {
                assert(figure(rest[i]) is Some);
            }
        }
    }
}

/// Plain figures, added up.
proof fn lemma_plain<T>(items: Seq<T>, figure: spec_fn(T) -> Option<u64>, rates: Seq<u64>)
    requires
        rates.len() == items.len(),
        forall|i: int| 0 <= i < items.len() ==> figure(items[i]) == Some(#[trigger] rates[i]),
    ensures
        rates_added(items, figure) == plain_sum(rates),
    decreases items.len(),
{
    if items.len() > 0 {
        let rest = items.drop_last();
        let fewer = rates.drop_last();
        assert forall|i: int| 0 <= i < rest.len() implies figure(rest[i]) == Some(
            #[trigger] fewer[i],
        ) by {
            assert(figure(items[i]) == Some(rates[i]));
        }
        lemma_plain(rest, figure, fewer);
        let n = items.len() - 1;
        assert(figure(items[n]) == Some(rates[n]));
    }
}

/// The totals of the machine are the sums of the bytes that volumes read and
/// wrote, of those that interfaces received and sent, and of the operations of
/// drives. A total of rates that may be unknown needs one that is known; that of
/// interfaces needs a list alone.
pub proof fn law_totals_are_sums(
    disks: Option<Seq<DiskSnapshot>>,
    networks: Option<Seq<NetworkSnapshot>>,
    drives: Option<Seq<DriveSnapshot>>,
)
    ensures
        ({
            let t = totals(disks, networks, drives);
            &&& is_known_total(
                t.disk_read_bytes_per_sec,
                disks,
                |d: DiskSnapshot| d.read_bytes_per_sec,
            )
            &&& is_known_total(
                t.disk_write_bytes_per_sec,
                disks,
                |d: DiskSnapshot| d.write_bytes_per_sec,
            )
            &&& is_known_total(
                t.disk_read_ops_per_sec,
                drives,
                |d: DriveSnapshot| d.read_ops_per_sec,
            )
            &&& is_known_total(
                t.disk_write_ops_per_sec,
                drives,
                |d: DriveSnapshot| d.write_ops_per_sec,
            )
            &&& t.network_received_bytes_per_sec is Some <==> networks is Some
            &&& t.network_transmitted_bytes_per_sec is Some <==> networks is Some
            &&& networks is Some ==> {
                let down = rates_added(
                    networks->0,
                    |n: NetworkSnapshot| Some(n.received_bytes_per_sec),
                );
                let up = rates_added(
                    networks->0,
                    |n: NetworkSnapshot| Some(n.transmitted_bytes_per_sec),
                );
                &&& t.network_received_bytes_per_sec->0 == if down <= 0xffff_ffff_ffff_ffff {
                    down
                } else {
                    0xffff_ffff_ffff_ffff
                }
                &&& t.network_transmitted_bytes_per_sec->0 == if up <= 0xffff_ffff_ffff_ffff {
                    up
                } else {
                    0xffff_ffff_ffff_ffff
                }
            }
        }),
{
    if disks is Some {
        let d = disks->0;
        lemma_known(d, |d: DiskSnapshot| d.read_bytes_per_sec, disk_reads(d));
        lemma_known(d, |d: DiskSnapshot| d.write_bytes_per_sec, disk_writes(d));
    }
    if drives is Some {
        let d = drives->0;
        lemma_known(d, |d: DriveSnapshot| d.read_ops_per_sec, read_ops(d));
        lemma_known(d, |d: DriveSnapshot| d.write_ops_per_sec, write_ops(d));
    }
    if networks is Some {
        let n = networks->0;
        lemma_plain(
            n,
            |n: NetworkSnapshot| Some(n.received_bytes_per_sec),
            received(n),
        );
        lemma_plain(
            n,
            |n: NetworkSnapshot| Some(n.transmitted_bytes_per_sec),
            transmitted(n),
        );
    }
}

/// Whether a reading is one that a sensor can mean: from twenty degrees below zero
/// to one hundred and fifty above, in millionths.
pub open spec fn is_possible(t: Option<i64>) -> bool {
    t is Some && -20_000_000 <= t->0 <= 150_000_000
}

/// Whether a temperature is that of a sensor, its limits left out where they are
/// not possible.
pub open spec fn shows_sensor(t: TemperatureSnapshot, raw: RawSensor) -> bool {
    &&& is_possible(raw.celsius)
    &&& t.label == raw.label
    &&& t.celsius == raw.celsius->0
    &&& t.max_celsius == if is_possible(raw.max) {
        raw.max
    } else {
        None
    }
    &&& t.critical_celsius == if is_possible(raw.critical) {
        raw.critical
    } else {
        None
    }
}

/// The readable sensors are the possible ones, each as often as it is reported.
proof fn lemma_readable(
    raws: Seq<RawSensor>,
    which: spec_fn(TemperatureSnapshot) -> bool,
    like: spec_fn(RawSensor) -> bool,
)
    requires
        forall|t: TemperatureSnapshot, raw: RawSensor|
            #![trigger which(t), like(raw)]
            shows_sensor(t, raw) ==> which(t) == like(raw),
    ensures
        forall|k: int|
            0 <= k < readable(raws).len() ==> exists|i: int|
                0 <= i < raws.len() && shows_sensor(#[trigger] readable(raws)[k], #[trigger] raws[i]),
        count(readable(raws), which) == count(
            raws,
            |raw: RawSensor| is_possible(raw.celsius) && like(raw),
        ),
        readable(raws).len() == count(raws, |raw: RawSensor| is_possible(raw.celsius)),
    decreases raws.len(),
{
    if raws.len() > 0 {
        let rest = raws.drop_last();
        let raw = raws.last();
        lemma_readable(rest, which, like);
        let all = readable(raws);
        let few = readable(rest);
        assert(raws[raws.len() - 1] == raw);
        if is_possible(raw.celsius) {
            assert(all.drop_last() =~= few);
            assert(shows_sensor(all.last(), raw));
            assert(which(all.last()) == like(raw));
        }
        assert forall|k: int| 0 <= k < all.len() implies exists|i: int|
            0 <= i < raws.len() && shows_sensor(#[trigger] all[k], #[trigger] raws[i]) by {
            if k < few.len() {
                assert(all[k] == few[k]);
                let i = choose|i: int|
                    0 <= i < rest.len() && shows_sensor(few[k], #[trigger] rest[i]);
                assert(raws[i] == rest[i]);
                assert(shows_sensor(all[k], raws[i]));
            } else {
                assert(shows_sensor(all[k], raws[raws.len() - 1]));
            }
        }
    }
}

/// The temperatures are those of the sensors with a possible reading, the hottest
/// first: as many as there are such sensors, and as many of each reading.
pub proof fn law_hottest_sensors_first(raws: Seq<RawSensor>, celsius: i64)
    ensures
        ({
            let shown = hottest_first(raws);
            &&& forall|i: int, j: int|
                0 <= i < j < shown.len() ==> (#[trigger] shown[i]).celsius >= (
                #[trigger] shown[j]).celsius
            &&& shown.len() == count(raws, |raw: RawSensor| is_possible(raw.celsius))
            &&& count(shown, |t: TemperatureSnapshot| t.celsius == celsius) == count(
                raws,
                |raw: RawSensor| is_possible(raw.celsius) && raw.celsius == Some(celsius),
            )
            &&& forall|k: int|
                0 <= k < shown.len() ==> exists|i: int|
                    0 <= i < raws.len() && shows_sensor(#[trigger] shown[k], #[trigger] raws[i])
        }),
{
    let which = |t: TemperatureSnapshot| t.celsius == celsius;
    let like = |raw: RawSensor| raw.celsius == Some(celsius);
    let list = readable(raws);
    let shown = hottest_first(raws);
    lemma_readable(raws, which, like);
    lemma_count_arranged::<TemperatureSnapshot, Hottest>(list, which);
    assert(weak_order::<TemperatureSnapshot, Hottest>());
    law_arranged_is_in_order::<TemperatureSnapshot, Hottest>(list);
    law_arranged_keeps_values::<TemperatureSnapshot, Hottest>(list);
    let a = |raw: RawSensor| is_possible(raw.celsius) && like(raw);
    let b = |raw: RawSensor| is_possible(raw.celsius) && raw.celsius == Some(celsius);
    lemma_count_monotone(raws, a, b);
    lemma_count_monotone(raws, b, a);
    assert forall|i: int, j: int| 0 <= i < j < shown.len() implies (#[trigger] shown[i]).celsius >= (
    #[trigger] shown[j]).celsius by {
        assert(!Hottest::before(shown[j], shown[i]));
    }
    assert forall|k: int| 0 <= k < shown.len() implies exists|i: int|
        0 <= i < raws.len() && shows_sensor(#[trigger] shown[k], #[trigger] raws[i]) by {
        lemma_arranged_contains::<TemperatureSnapshot, Hottest>(list, shown[k]);
        assert(shown.contains(shown[k]));
        let m = choose|m: int| 0 <= m < list.len() && list[m] == shown[k];
        assert(shown[k] == list[m]);
    }
}

/// The cores of the first `k` levels.
pub open spec fn cores_of(levels: Seq<(String, u32)>, k: nat) -> int
    decreases k,
{
    if k == 0 {
        0
    } else {
        cores_of(levels, (k - 1) as nat) + levels[k - 1].1
    }
}

/// The usage of the cores `from..to`, added up.
pub open spec fn usage_added(per_core: Seq<u64>, from: int, to: int) -> int
    decreases to - from,
{
    if from >= to {
        0
    } else {
        usage_added(per_core, from, to - 1) + per_core[to - 1]
    }
}

/// The cores of the levels, counted.
proof fn lemma_cores(levels: Seq<(String, u32)>, k: nat)
    requires
        k <= levels.len(),
    ensures
        cores_in(levels.take(k as int)) == cores_of(levels, k),
    decreases k,
{
    if k > 0 {
        lemma_cores(levels, (k - 1) as nat);
        assert(levels.take(k as int).drop_last() =~= levels.take(k - 1));
    } else {
        assert(levels.take(0) =~= Seq::<(String, u32)>::empty());
    }
}

/// The usage of some cores, added up.
proof fn lemma_usage(per_core: Seq<u64>, from: int, to: int)
    requires
        0 <= from <= to <= per_core.len(),
    ensures
        sum_of(per_core.subrange(from, to)) == usage_added(per_core, from, to),
        usage_added(per_core, from, to) <= (to - from) * u64::MAX,
        usage_added(per_core, from, to) >= 0,
    decreases to - from,
{
    let s = per_core.subrange(from, to);
    if from < to {
        lemma_usage(per_core, from, to - 1);
        assert(s.drop_last() =~= per_core.subrange(from, to - 1));
        assert((to - from) * u64::MAX == (to - 1 - from) * u64::MAX + u64::MAX)
            by (nonlinear_arith);
    } else {
        assert(s =~= Seq::<u64>::empty());
    }
}

/// Each level is shown with its name, its cores and their mean usage, rounded
/// down. The first level has the last cores, the next one those before them, and so
/// on; none without a core has a usage.
pub proof fn law_levels_have_the_cores_from_the_end(
    per_core: Seq<u64>,
    levels: Seq<(String, u32)>,
    k: int,
)
    requires
        0 <= k < levels.len(),
        cores_of(levels, levels.len()) <= per_core.len(),
    ensures
        ({
            let shown = level_usages(per_core, levels);
            let to = per_core.len() - cores_of(levels, k as nat);
            let from = to - levels[k].1;
            let usage = usage_added(per_core, from, to);
            &&& shown.len() == levels.len()
            &&& shown[k].name == levels[k].0
            &&& shown[k].logical_cores == levels[k].1
            &&& levels[k].1 == 0 ==> shown[k].usage_percent == 0
            &&& levels[k].1 > 0 ==> shown[k].usage_percent * levels[k].1 <= usage < (
            shown[k].usage_percent + 1) * levels[k].1
        }),
    decreases levels.len(),
{
    let n = levels.len();
    let rest = levels.drop_last();
    lemma_level_count(per_core, levels);
    lemma_level_count(per_core, rest);
    lemma_same_cores(levels, (n - 1) as nat);
    if k < n - 1 {
        law_levels_have_the_cores_from_the_end(per_core, rest, k);
        lemma_same_cores(levels, k as nat);
    } else {
        lemma_cores(levels, (n - 1) as nat);
        assert(levels.take(n - 1) =~= rest);
        lemma_not_negative(levels, (n - 1) as nat);
        let to = per_core.len() - cores_of(levels, k as nat);
        let from = to - levels[k].1;
        lemma_usage(per_core, from, to);
        let c = levels[k].1 as int;
        let u = usage_added(per_core, from, to);
        if c > 0 {
            let q = u / c;
            assert(q * c <= u < (q + 1) * c && 0 <= q <= u64::MAX) by (nonlinear_arith)
                requires
                    c > 0,
                    0 <= u <= c * u64::MAX,
                    q == u / c,
            ;
        }
    }
}

/// Each level is shown once.
proof fn lemma_level_count(per_core: Seq<u64>, levels: Seq<(String, u32)>)
    ensures
        level_usages(per_core, levels).len() == levels.len(),
    decreases levels.len(),
{
    if levels.len() > 0 {
        lemma_level_count(per_core, levels.drop_last());
    }
}

/// Fewer levels count as before.
proof fn lemma_same_cores(levels: Seq<(String, u32)>, k: nat)
    requires
        k < levels.len(),
    ensures
        cores_of(levels.drop_last(), k) == cores_of(levels, k),
        cores_of(levels, k) <= cores_of(levels, levels.len()),
{
    lemma_same_prefix(levels, k);
    lemma_more_cores(levels, k, levels.len());
}

/// The first levels of fewer count as before.
proof fn lemma_same_prefix(levels: Seq<(String, u32)>, k: nat)
    requires
        k < levels.len(),
    ensures
        cores_of(levels.drop_last(), k) == cores_of(levels, k),
    decreases k,
{
    if k > 0 {
        lemma_same_prefix(levels, (k - 1) as nat);
    }
}

/// More levels have more cores.
proof fn lemma_more_cores(levels: Seq<(String, u32)>, k: nat, m: nat)
    requires
        k <= m <= levels.len(),
    ensures
        cores_of(levels, k) <= cores_of(levels, m),
    decreases m,
{
    if k < m {
        lemma_more_cores(levels, k, (m - 1) as nat);
    }
}

/// There are no fewer cores than none.
proof fn lemma_not_negative(levels: Seq<(String, u32)>, k: nat)
    ensures
        cores_of(levels, k) >= 0,
    decreases k,
{
    if k > 0 {
        lemma_not_negative(levels, (k - 1) as nat);
    }
}

} // verus!
