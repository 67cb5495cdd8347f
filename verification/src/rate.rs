//! Rates from counters.
use vstd::prelude::*;
use crate::time::Duration;

verus! {

/// `n`, or the largest 64-bit number where `n` is larger.
pub open spec fn capped64(n: nat) -> u64 {
    if n <= u64::MAX {
        n as u64
    } else {
        u64::MAX
    }
}

/// How much a counter grew each second, rounded to the nearest whole number (a
/// half up); zero when the counter went back or no time has passed.
pub open spec fn rate_of(prev: u64, curr: u64, elapsed: Duration) -> u64 {
    if curr < prev || elapsed.nanos == 0 {
        0
    } else {
        capped64(
            ((2 * (curr - prev) * 1_000_000_000 + elapsed.nanos) / (2 * elapsed.nanos)) as nat,
        )
    }
}

/// The rate at which a counter grew, per second.
pub fn rate_per_sec(prev: u64, curr: u64, elapsed: Duration) -> (r: u64)
    ensures
        r == rate_of(prev, curr, elapsed),
{
    if curr < prev || elapsed.nanos == 0 {
        return 0;
    }
    let twice: u128 = 2 * (curr - prev) as u128 * 1_000_000_000;
    let nanos: u128 = elapsed.nanos;
    if nanos > twice {
        proof {
            assert((twice + nanos) / (2 * nanos) == 0) by (nonlinear_arith)
                requires
                    nanos > twice,
                    twice >= 0,
            ;
        }
        return 0;
    }
    let rounded: u128 = (twice + nanos) / (2 * nanos);
    if rounded > u64::MAX as u128 {
        u64::MAX
    } else {
        rounded as u64
    }
}

/// How many bytes a second `bytes` in `elapsed` make, rounded down; nothing
/// without bytes or time.
pub open spec fn throughput(bytes: Option<u64>, elapsed: Option<Duration>) -> Option<u64> {
    match (bytes, elapsed) {
        (Some(b), Some(d)) => if d.nanos == 0 {
            None
        } else {
            Some(capped64((b * 1_000_000_000 / d.nanos as int) as nat))
        },
        _ => None,
    }
}

/// How many bytes a second `bytes` in `elapsed` make.
pub fn bytes_per_sec(bytes: Option<u64>, elapsed: Option<Duration>) -> (r: Option<u64>)
    ensures
        r == throughput(bytes, elapsed),
{
    match (bytes, elapsed) {
        (Some(b), Some(d)) => if d.nanos == 0 {
            None
        } else {
            let rate: u128 = b as u128 * 1_000_000_000 / d.nanos;
            if rate > u64::MAX as u128 {
                Some(u64::MAX)
            } else {
                Some(rate as u64)
            }
        },
        _ => None,
    }
}

/// A counter that went back, or no time, gives no rate at all.
pub proof fn law_no_rate_across_a_reset(prev: u64, curr: u64, elapsed: Duration)
    requires
        curr < prev || elapsed.nanos == 0,
    ensures
        rate_of(prev, curr, elapsed) == 0,
{
}

/// The rate over a whole number of seconds that divides the growth is the exact
/// quotient.
pub proof fn law_rate_is_exact_where_it_divides(prev: u64, curr: u64, elapsed: Duration, rate: u64)
    requires
        elapsed.nanos > 0,
        curr >= prev,
        (curr - prev) * 1_000_000_000 == rate * elapsed.nanos,
    ensures
        rate_of(prev, curr, elapsed) == rate,
{
    let n = elapsed.nanos as int;
    assert((2 * (rate * n) + n) / (2 * n) == rate) by (nonlinear_arith)
        requires
            n > 0,
            rate >= 0,
    ;
    assert(2 * (curr - prev) * 1_000_000_000 == 2 * (rate * n));
}

/// Whether `rate` is how much a counter grew each second, over that many
/// nanoseconds, to the nearest whole number; the largest number there is where the
/// growth is beyond it. A counter that went back, or no time, gives zero.
pub open spec fn is_rate(rate: u64, before: u64, after: u64, nanos: u128) -> bool {
    if after < before || nanos == 0 {
        rate == 0
    } else {
        let twice = 2 * (after - before) * 1_000_000_000;
        if twice >= (2 * 0x1_0000_0000_0000_0000 - 1) * nanos {
            rate == 0xffff_ffff_ffff_ffff
        } else {
            (2 * rate - 1) * nanos <= twice < (2 * rate + 1) * nanos
        }
    }
}

/// The rate of a counter is its growth each second, to the nearest whole number.
pub proof fn law_rate_is_the_nearest(prev: u64, curr: u64, elapsed: Duration)
    ensures
        is_rate(rate_of(prev, curr, elapsed), prev, curr, elapsed.nanos),
{
    if curr >= prev && elapsed.nanos > 0 {
        let n = elapsed.nanos as int;
        let twice = 2 * (curr - prev) * 1_000_000_000;
        let q = (twice + n) / (2 * n);
        assert(q >= 0 && 2 * q * n <= twice + n < 2 * (q + 1) * n) by (nonlinear_arith)
            requires
                n > 0,
                twice >= 0,
                q == (twice + n) / (2 * n),
        ;
        assert((2 * q - 1) * n == 2 * q * n - n) by (nonlinear_arith);
        assert((2 * q + 1) * n == 2 * (q + 1) * n - n) by (nonlinear_arith);
        let most = 0x1_0000_0000_0000_0000int;
        assert(q >= most <==> twice >= (2 * most - 1) * n) by (nonlinear_arith)
            requires
                n > 0,
                (2 * q - 1) * n <= twice < (2 * q + 1) * n,
        ;
    }
}

/// A number of bytes in some time is so many bytes a second, rounded down. Without
/// bytes, or without time, there is no such number.
pub proof fn law_throughput(bytes: Option<u64>, elapsed: Option<Duration>)
    ensures
        ({
            let known = bytes is Some && elapsed is Some && elapsed->0.nanos > 0;
            let r = throughput(bytes, elapsed);
            &&& r is Some <==> known
            &&& known && bytes->0 * 1_000_000_000 < 0x1_0000_0000_0000_0000 * elapsed->0.nanos ==> r->0
                * elapsed->0.nanos <= bytes->0 * 1_000_000_000 < (r->0 + 1) * elapsed->0.nanos
            &&& known && bytes->0 * 1_000_000_000 >= 0x1_0000_0000_0000_0000 * elapsed->0.nanos
                ==> r->0 == 0xffff_ffff_ffff_ffff
        }),
{
    if bytes is Some && elapsed is Some && elapsed->0.nanos > 0 {
        let a = bytes->0 * 1_000_000_000;
        let n = elapsed->0.nanos as int;
        let q = a / n;
        assert(0 <= q && q * n <= a < (q + 1) * n) by (nonlinear_arith)
            requires
                n > 0,
                a >= 0,
                q == a / n,
        ;
        let most = 0x1_0000_0000_0000_0000int;
        assert(q >= most <==> a >= most * n) by (nonlinear_arith)
            requires
                n > 0,
                q * n <= a < (q + 1) * n,
        ;
    }
}

} // verus!
