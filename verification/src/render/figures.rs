//! Numbers, sizes and times as people read them.
use vstd::prelude::*;
use vstd::string::*;
use crate::number::{
    law_rounded_is_the_nearest, push_tenths, round_div, rounded, tenths_text, UNIT,
};
use crate::text::{decimal, digit, digit_char, number_text};
use super::theme::{repeat, repeated};

verus! {

/// A number in millionths with one digit after the point.
pub open spec fn one_digit(v: nat) -> Seq<char> {
    tenths_text(rounded(10 * v, UNIT as nat))
}

/// A signed number in millionths with one digit after the point.
pub open spec fn signed_digit(v: int) -> Seq<char> {
    if v < 0 {
        "-"@ + one_digit((0 - v) as nat)
    } else {
        one_digit(v as nat)
    }
}

/// A number of hundredths, with two digits after the point.
pub open spec fn hundredths_text(h: nat) -> Seq<char> {
    decimal(h / 100) + seq!['.', digit_char(h / 10 % 10), digit_char(h % 10)]
}

/// A number in millionths with two digits after the point.
pub open spec fn two_digits(v: nat) -> Seq<char> {
    hundredths_text(rounded(100 * v, UNIT as nat))
}

/// A number in millionths without a fraction.
pub open spec fn no_digit(v: nat) -> Seq<char> {
    decimal(rounded(v, UNIT as nat))
}

/// The text with spaces before it, to at least `width` characters.
pub open spec fn padded(text: Seq<char>, width: nat) -> Seq<char> {
    if text.len() >= width {
        text
    } else {
        repeated(' ', (width - text.len()) as nat) + text
    }
}

/// A number in millionths with one digit after the point.
pub fn tenths(v: u64) -> (r: String)
    ensures
        r@ == one_digit(v as nat),
{
    let mut r = String::new();
    push_tenths(&mut r, round_div(10 * v as u128, UNIT as u128));
    assert(r@ =~= one_digit(v as nat));
    r
}

/// A signed number in millionths with one digit after the point.
pub fn signed_tenths(v: i64) -> (r: String)
    ensures
        r@ == signed_digit(v as int),
{
    if v < 0 {
        "-".to_owned().concat(tenths((0 - v as i128) as u64).as_str())
    } else {
        tenths(v as u64)
    }
}

/// A number in millionths with two digits after the point.
pub fn hundredths(v: u64) -> (r: String)
    ensures
        r@ == two_digits(v as nat),
{
    let h: u128 = round_div(100 * v as u128, UNIT as u128);
    let mut r = number_text(h / 100);
    r.push('.');
    r.push(digit((h / 10 % 10) as u64));
    r.push(digit((h % 10) as u64));
    assert(r@ =~= two_digits(v as nat));
    r
}

/// A number in millionths without a fraction.
pub fn whole(v: u64) -> (r: String)
    ensures
        r@ == no_digit(v as nat),
{
    number_text(round_div(v as u128, UNIT as u128))
}

/// The text with spaces before it.
pub fn pad(text: String, width: usize) -> (r: String)
    ensures
        r@ == padded(text@, width as nat),
{
    let n: usize = text.as_str().unicode_len();
    if n >= width {
        text
    } else {
        repeat(' ', width - n).concat(text.as_str())
    }
}

/// Bytes in the largest binary unit that leaves at least one, with one digit
/// after the point.
pub open spec fn bytes_text(bytes: nat) -> Seq<char> {
    if bytes < 0x400 {
        decimal(bytes) + " B"@
    } else if bytes < 0x10_0000 {
        tenths_text(rounded(10 * bytes, 0x400)) + " KiB"@
    } else if bytes < 0x4000_0000 {
        tenths_text(rounded(10 * bytes, 0x10_0000)) + " MiB"@
    } else if bytes < 0x100_0000_0000 {
        tenths_text(rounded(10 * bytes, 0x4000_0000)) + " GiB"@
    } else {
        tenths_text(rounded(10 * bytes, 0x100_0000_0000)) + " TiB"@
    }
}

/// Bytes in a unit, with one digit after the point.
fn in_unit(bytes: u64, unit: u128) -> (r: String)
    requires
        0 < unit <= 0x100_0000_0000,
    ensures
        r@ == tenths_text(rounded(10 * bytes as nat, unit as nat)),
{
    let mut r = String::new();
    push_tenths(&mut r, round_div(10 * bytes as u128, unit));
    assert(r@ =~= tenths_text(rounded(10 * bytes as nat, unit as nat)));
    r
}

/// Bytes as people read them: `512 B`, `2.0 KiB`.
pub fn human_bytes(bytes: u64) -> (r: String)
    ensures
        r@ == bytes_text(bytes as nat),
{
    if bytes < 0x400 {
        number_text(bytes as u128).concat(" B")
    } else if bytes < 0x10_0000 {
        in_unit(bytes, 0x400).concat(" KiB")
    } else if bytes < 0x4000_0000 {
        in_unit(bytes, 0x10_0000).concat(" MiB")
    } else if bytes < 0x100_0000_0000 {
        in_unit(bytes, 0x4000_0000).concat(" GiB")
    } else {
        in_unit(bytes, 0x100_0000_0000).concat(" TiB")
    }
}

/// A rate; a dash where there is none yet.
pub open spec fn rate_text(rate: Option<u64>) -> Seq<char> {
    match rate {
        Some(v) => bytes_text(v as nat) + "/s"@,
        None => "-"@,
    }
}

/// A rate as people read it; a dash where there is none yet.
pub fn human_rate(rate: Option<u64>) -> (r: String)
    ensures
        r@ == rate_text(rate),
{
    match rate {
        Some(v) => human_bytes(v).concat("/s"),
        None => "-".to_owned(),
    }
}

/// Seconds by their one or two leading units.
pub open spec fn uptime_text(secs: nat) -> Seq<char> {
    if secs >= 86_400 {
        decimal(secs / 86_400) + "d"@ + decimal(secs % 86_400 / 3_600) + "h"@
    } else if secs >= 3_600 {
        decimal(secs / 3_600) + "h"@ + decimal(secs % 3_600 / 60) + "m"@
    } else if secs >= 60 {
        decimal(secs / 60) + "m"@
    } else {
        decimal(secs) + "s"@
    }
}

/// Seconds as people read them: `3d4h`, `5h12m`, `42m` or `17s`.
pub fn human_uptime(secs: u64) -> (r: String)
    ensures
        r@ == uptime_text(secs as nat),
{
    let days: u64 = secs / 86_400;
    let hours: u64 = secs % 86_400 / 3_600;
    let mins: u64 = secs % 3_600 / 60;
    if days > 0 {
        number_text(days as u128).concat("d").concat(number_text(hours as u128).as_str()).concat("h")
    } else if hours > 0 {
        assert(hours == secs / 3_600);
        number_text(hours as u128).concat("h").concat(number_text(mins as u128).as_str()).concat("m")
    } else if mins > 0 {
        assert(mins == secs / 60);
        number_text(mins as u128).concat("m")
    } else {
        number_text((secs % 60) as u128).concat("s")
    }
}

/// Whether `t` tenths is the nearest to `n` of `d`.
pub open spec fn nearest_tenths(t: nat, n: nat, d: nat) -> bool {
    (2 * t - 1) * d <= 20 * n && 20 * n <= (2 * t + 1) * d
}

/// A number of tenths as text: the whole, a point and one digit.
pub open spec fn has_tenths(text: Seq<char>, t: nat, end: Seq<char>) -> bool {
    exists|whole: nat, tenth: nat|
        tenth < 10 && whole * 10 + tenth == t && text == #[trigger] decimal(whole) + seq![
            '.',
        ] + #[trigger] decimal(tenth) + end
}

/// Bytes are shown in the largest unit of which there is at least one, to the
/// nearest tenth; fewer than 1024 as they are.
pub proof fn law_bytes_in_the_largest_unit(bytes: nat)
    ensures
        ({
            let text = bytes_text(bytes);
            let kib = rounded(10 * bytes, 1024);
            let mib = rounded(10 * bytes, 1_048_576);
            let gib = rounded(10 * bytes, 1_073_741_824);
            let tib = rounded(10 * bytes, 1_099_511_627_776);
            &&& bytes < 1024 ==> text == decimal(bytes) + " B"@
            &&& 1024 <= bytes < 1_048_576 ==> has_tenths(text, kib, " KiB"@) && nearest_tenths(
                kib,
                bytes,
                1024,
            )
            &&& 1_048_576 <= bytes < 1_073_741_824 ==> has_tenths(text, mib, " MiB"@)
                && nearest_tenths(mib, bytes, 1_048_576)
            &&& 1_073_741_824 <= bytes < 1_099_511_627_776 ==> has_tenths(text, gib, " GiB"@)
                && nearest_tenths(gib, bytes, 1_073_741_824)
            &&& 1_099_511_627_776 <= bytes ==> has_tenths(text, tib, " TiB"@) && nearest_tenths(
                tib,
                bytes,
                1_099_511_627_776,
            )
        }),
{
    lemma_in_unit(bytes, 1024, " KiB"@);
    lemma_in_unit(bytes, 1_048_576, " MiB"@);
    lemma_in_unit(bytes, 1_073_741_824, " GiB"@);
    lemma_in_unit(bytes, 1_099_511_627_776, " TiB"@);
}

/// Bytes in one unit.
proof fn lemma_in_unit(bytes: nat, unit: nat, end: Seq<char>)
    requires
        unit > 0,
    ensures
        ({
            let t = rounded(10 * bytes, unit);
            &&& has_tenths(tenths_text(t) + end, t, end)
            &&& nearest_tenths(t, bytes, unit)
        }),
{
    let t = rounded(10 * bytes, unit);
    law_rounded_is_the_nearest(10 * bytes, unit);
    let (whole, tenth) = (t / 10, t % 10);
    assert(tenths_text(t) + end == decimal(whole) + seq!['.'] + decimal(tenth) + end);
}

/// A time is shown by its one or two leading units, and what is shown is less than
/// one of the last of them short of it.
pub proof fn law_uptime_by_its_leading_units(secs: nat)
    ensures
        secs < 60 ==> uptime_text(secs) == decimal(secs) + "s"@,
        60 <= secs < 3_600 ==> exists|m: nat|
            m * 60 <= secs < (m + 1) * 60 && uptime_text(secs) == #[trigger] decimal(m) + "m"@,
        3_600 <= secs < 86_400 ==> exists|h: nat, m: nat|
            m < 60 && h * 3_600 + m * 60 <= secs < h * 3_600 + (m + 1) * 60 && uptime_text(secs)
                == #[trigger] decimal(h) + "h"@ + #[trigger] decimal(m) + "m"@,
        86_400 <= secs ==> exists|d: nat, h: nat|
            h < 24 && d * 86_400 + h * 3_600 <= secs < d * 86_400 + (h + 1) * 3_600
                && uptime_text(secs) == #[trigger] decimal(d) + "d"@ + #[trigger] decimal(h)
                + "h"@,
{
    if secs >= 86_400 {
        let (d, h) = (secs / 86_400, secs % 86_400 / 3_600);
        assert(h < 24 && d * 86_400 + h * 3_600 <= secs < d * 86_400 + (h + 1) * 3_600);
        assert(uptime_text(secs) == decimal(d) + "d"@ + decimal(h) + "h"@);
    } else if secs >= 3_600 {
        let (h, m) = (secs / 3_600, secs % 3_600 / 60);
        assert(m < 60 && h * 3_600 + m * 60 <= secs < h * 3_600 + (m + 1) * 60);
        assert(uptime_text(secs) == decimal(h) + "h"@ + decimal(m) + "m"@);
    } else if secs >= 60 {
        let m = secs / 60;
        assert(uptime_text(secs) == decimal(m) + "m"@);
    }
}

} // verus!
