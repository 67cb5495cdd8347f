//! Mean memory against a bar in percent and in bytes.
use vstd::arithmetic::div_mod::{lemma_div_denominator, lemma_fundamental_div_mod};
use vstd::prelude::*;
use super::event::AlertDetail;
use super::thresholds::{choice, Thresholds};
use crate::rolling::{bounded, ProcessStats};
use crate::time::Duration;

verus! {

/// A whole, in millionths of a percent.
pub const WHOLE: u128 = 100_000_000;

/// What a mean must reach: a share of all memory, or a number of bytes where
/// one is given.
#[derive(Debug, Clone, Copy, PartialEq, Eq, Structural)]
pub struct Bar {
    pub percent: u64,
    pub ceiling: Option<u64>,
}

/// The bar of a name. The number of bytes counts for names without a value of
/// their own.
pub open spec fn bar_of(t: &Thresholds<u64>, ceiling: Option<u64>, name: Seq<char>) -> Option<Bar> {
    match t.threshold(name) {
        None => None,
        Some(percent) => Some(
            Bar {
                percent,
                ceiling: if choice(t.user(), name) is Some || choice(t.templated(), name) is Some {
                    None
                } else {
                    ceiling
                },
            },
        ),
    }
}

/// The bar of names without a value of their own.
pub open spec fn base_bar(t: &Thresholds<u64>, ceiling: Option<u64>) -> Option<Bar> {
    match t.default_value() {
        None => None,
        Some(percent) => Some(Bar { percent, ceiling }),
    }
}

/// The memory that the rules measure, added up over the samples: the footprint
/// where there is one, else the resident memory.
pub open spec fn measured_sum(stat: ProcessStats) -> nat {
    match stat.footprint_sum_bytes {
        Some(sum) => sum as nat,
        None => stat.memory_sum_bytes as nat,
    }
}

/// The mean of the memory that the rules measure, rounded down.
pub open spec fn measured_avg(stat: ProcessStats) -> u64 {
    match stat.footprint_avg_bytes {
        Some(avg) => avg,
        None => stat.memory_avg_bytes,
    }
}

/// Whether a mean of `sum` over `n` samples is at least `percent` of `total`.
pub open spec fn share_reaches(sum: nat, n: nat, total: nat, percent: nat) -> bool {
    sum * WHOLE >= percent * total * n
}

/// Whether the mean reaches the bar: the lower of its two figures is enough.
pub open spec fn reached(stat: ProcessStats, total: u64, bar: Bar) -> bool {
    ||| share_reaches(measured_sum(stat), stat.samples as nat, total as nat, bar.percent as nat)
    ||| bar.ceiling is Some && measured_sum(stat) >= bar.ceiling->0 * stat.samples
}

/// The share of `total` that a mean of `sum` over `n` samples has, in
/// millionths of a percent.
pub open spec fn share_of(sum: nat, n: nat, total: nat) -> nat {
    sum * WHOLE as nat / (n * total)
}

/// Whether the number of bytes is the lower figure of the bar.
pub open spec fn by_bytes(total: u64, bar: Bar) -> bool {
    bar.ceiling is Some && bar.ceiling->0 * WHOLE < bar.percent * total
}

/// The measurement behind a memory alert.
pub open spec fn memory_detail(stat: ProcessStats, total: u64, bar: Bar, window: Duration) -> AlertDetail {
    AlertDetail::Memory {
        avg_bytes: measured_avg(stat),
        share_percent: share_of(measured_sum(stat), stat.samples as nat, total as nat) as u128,
        threshold_bytes: if by_bytes(total, bar) {
            bar.ceiling->0 as u128
        } else {
            (bar.percent * total / WHOLE as int) as u128
        },
        threshold_percent: if by_bytes(total, bar) {
            (bar.ceiling->0 * WHOLE / total as int) as u128
        } else {
            bar.percent as u128
        },
        window,
    }
}

/// The bar of a name.
pub fn find_bar(t: &Thresholds<u64>, ceiling: Option<u64>, name: &str) -> (r: Option<Bar>)
    ensures
        r == bar_of(t, ceiling, name@),
{
    match t.for_process(name) {
        None => None,
        Some(percent) => if t.has_own_value(name) {
            Some(Bar { percent, ceiling: None })
        } else {
            Some(Bar { percent, ceiling })
        },
    }
}

/// `sum * WHOLE / n`, without leaving 128 bits.
fn scaled_mean(sum: u128, n: usize) -> (r: u128)
    requires
        n >= 1,
        sum <= n * u64::MAX,
    ensures
        r == sum * WHOLE / n as int,
{
    let d: u128 = n as u128;
    let q: u128 = sum / d;
    let rest: u128 = sum % d;
    proof {
        assert(q <= u64::MAX) by (nonlinear_arith)
            requires
                d >= 1,
                sum <= d * u64::MAX,
                q == sum / d,
        ;
        lemma_fundamental_div_mod(sum as int, d as int);
        assert(rest * WHOLE <= 0xffff_ffff_ffff_ffff * 100_000_000) by (nonlinear_arith)
            requires
                rest < d,
                d <= 0xffff_ffff_ffff_ffff,
                WHOLE == 100_000_000,
        ;
        let x = rest * WHOLE;
        assert(sum * WHOLE == x + (q * WHOLE) * d) by (nonlinear_arith)
            requires
                sum == d * q + rest,
                x == rest * WHOLE,
        ;
        vstd::arithmetic::div_mod::lemma_hoist_over_denominator(
            x as int,
            (q * WHOLE) as int,
            d as nat,
        );
        assert(x / d as int <= x) by (nonlinear_arith)
            requires
                x >= 0,
                d >= 1,
        ;
    }
    q * WHOLE + rest * WHOLE / d
}

/// The share of a mean, in millionths of a percent.
pub fn share(sum: u128, n: usize, total: u64) -> (r: u128)
    requires
        n >= 1,
        total >= 1,
        sum <= n * u64::MAX,
    ensures
        r == share_of(sum as nat, n as nat, total as nat),
{
    proof {
        lemma_div_denominator((sum * WHOLE) as int, n as int, total as int);
    }
    scaled_mean(sum, n) / total as u128
}

/// The memory that the rules measure, added up over the samples.
fn measured(stat: &ProcessStats) -> (r: u128)
    ensures
        r == measured_sum(*stat),
{
    match stat.footprint_sum_bytes {
        Some(sum) => sum,
        None => stat.memory_sum_bytes,
    }
}

/// Whether the mean reaches the bar.
pub fn reaches(stat: &ProcessStats, total: u64, bar: Bar) -> (r: bool)
    requires
        bounded(*stat),
    ensures
        r == reached(*stat, total, bar),
{
    let sum: u128 = measured(stat);
    let n: usize = stat.samples;
    let mean: u128 = scaled_mean(sum, n);
    proof {
        assert(bar.percent * total <= u64::MAX * u64::MAX) by (nonlinear_arith)
            requires
                bar.percent <= u64::MAX,
                total <= u64::MAX,
        ;
        let y = bar.percent * total;
        let x = sum * WHOLE;
        assert(x / n as int >= y <==> x >= y * n) by (nonlinear_arith)
            requires
                n >= 1,
                x >= 0,
                y >= 0,
        ;
    }
    if mean >= bar.percent as u128 * total as u128 {
        return true;
    }
    match bar.ceiling {
        Some(c) => {
            assert(c * n <= u64::MAX * u64::MAX) by (nonlinear_arith)
                requires
                    c <= u64::MAX,
                    n <= u64::MAX,
            ;
            sum >= c as u128 * n as u128
        },
        None => false,
    }
}

/// The measurement behind a memory alert.
pub fn describe(stat: &ProcessStats, total: u64, bar: Bar, window: Duration) -> (r: AlertDetail)
    requires
        bounded(*stat),
        total >= 1,
    ensures
        r == memory_detail(*stat, total, bar, window),
{
    let avg: u64 = match stat.footprint_avg_bytes {
        Some(avg) => avg,
        None => stat.memory_avg_bytes,
    };
    assert(bar.percent * total <= u64::MAX * u64::MAX) by (nonlinear_arith)
        requires
            bar.percent <= u64::MAX,
            total <= u64::MAX,
    ;
    let product: u128 = bar.percent as u128 * total as u128;
    let mut bytes: u128 = product / WHOLE;
    let mut percent: u128 = bar.percent as u128;
    if let Some(c) = bar.ceiling {
        if (c as u128 * WHOLE) < product {
            bytes = c as u128;
            percent = c as u128 * WHOLE / total as u128;
        }
    }
    AlertDetail::Memory {
        avg_bytes: avg,
        share_percent: share(measured(stat), stat.samples, total),
        threshold_bytes: bytes,
        threshold_percent: percent,
        window,
    }
}

/// With a number of bytes beside it, the bar is never harder to reach, and a
/// mean of that many bytes is always enough.
pub proof fn law_lower_of_two_bars(stat: ProcessStats, total: u64, percent: u64, bytes: u64)
    ensures
        reached(stat, total, Bar { percent, ceiling: None }) ==> reached(
            stat,
            total,
            Bar { percent, ceiling: Some(bytes) },
        ),
        measured_sum(stat) >= bytes * stat.samples ==> reached(
            stat,
            total,
            Bar { percent, ceiling: Some(bytes) },
        ),
{
}

} // verus!
