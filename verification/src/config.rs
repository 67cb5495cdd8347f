//! Durations and byte sizes as people write them, and the collector's
//! settings.
use vstd::prelude::*;
use vstd::string::*;
use crate::number::UNIT;
use crate::text::{
    chars_of, count_digits, decimal, is_text, leading_digits, lowered, number_text, parse_digits,
    is_digit, is_space, lemma_decimal, lemma_leading_digits, lemma_trimmed_fixed, parsed_number,
    part, same_text, string_of, to_lower, trim, trimmed,
};
use crate::time::{Duration, NANOS_PER_MILLI};

verus! {

/// How many milliseconds a unit of time has; nothing for an unknown unit.
pub open spec fn time_unit(unit: Seq<char>) -> Option<nat> {
    if unit == "ms"@ {
        Some(1)
    } else if unit == "s"@ {
        Some(1_000)
    } else if unit == "m"@ {
        Some(60_000)
    } else if unit == "h"@ {
        Some(3_600_000)
    } else {
        None
    }
}

/// The milliseconds that a duration's text stands for, or the message for a
/// text that is no duration.
pub open spec fn duration_of(value: Seq<char>) -> Result<nat, Seq<char>> {
    let v = trimmed(value);
    let n = leading_digits(v);
    let unit = trimmed(v.skip(n));
    if v.len() == 0 {
        Err("empty duration"@)
    } else if parsed_number(v.take(n)) is None {
        Err("invalid duration: "@ + value)
    } else if n == v.len() {
        Ok(parsed_number(v.take(n))->0 as nat)
    } else if time_unit(unit) is None {
        Err("invalid duration unit: "@ + unit + " (use ms, s, m or h)"@)
    } else {
        Ok((parsed_number(v.take(n))->0 * time_unit(unit)->0) as nat)
    }
}

/// Whether a duration's text stands for no more milliseconds than 64 bits
/// count.
pub open spec fn duration_in_range(value: Seq<char>) -> bool {
    duration_of(value) is Ok ==> duration_of(value)->Ok_0 <= u64::MAX
}

fn time_factor(unit: &Vec<char>) -> (r: Option<u64>)
    ensures
        r is Some == time_unit(unit@) is Some,
        r is Some ==> r->0 == time_unit(unit@)->0 && r->0 <= 3_600_000,
{
    if is_text(unit, "ms") {
        Some(1)
    } else if is_text(unit, "s") {
        Some(1_000)
    } else if is_text(unit, "m") {
        Some(60_000)
    } else if is_text(unit, "h") {
        Some(3_600_000)
    } else {
        None
    }
}

/// The milliseconds of a duration's text, without a limit on their number.
fn read_duration(value: &str) -> (r: Result<u128, String>)
    ensures
        r is Ok ==> duration_of(value@) == Ok::<nat, Seq<char>>(r->Ok_0 as nat),
        r is Err ==> duration_of(value@) == Err::<nat, Seq<char>>(r->Err_0@),
{
    let v = trim(&chars_of(value));
    if v.len() == 0 {
        return Err("empty duration".to_owned());
    }
    let n: usize = count_digits(&v);
    let digits = part(&v, 0, n);
    assert(digits@ =~= v@.take(n as int));
    let number: u64 = match parse_digits(&digits) {
        Some(number) => number,
        None => {
            return Err("invalid duration: ".to_owned().concat(value));
        },
    };
    if n == v.len() {
        return Ok(number as u128);
    }
    let rest = part(&v, n, v.len());
    assert(rest@ =~= v@.skip(n as int));
    let unit = trim(&rest);
    match time_factor(&unit) {
        Some(factor) => {
            assert(number * factor <= u64::MAX * 3_600_000) by (nonlinear_arith)
                requires
                    number <= u64::MAX,
                    factor <= 3_600_000,
            ;
            Ok(number as u128 * factor as u128)
        },
        None => Err(
            "invalid duration unit: ".to_owned().concat(string_of(&unit).as_str()).concat(
                " (use ms, s, m or h)",
            ),
        ),
    }
}

/// Whether the text is a duration of at most 64 bits of milliseconds, or no
/// duration at all.
pub fn duration_fits(value: &str) -> (r: bool)
    ensures
        r == duration_in_range(value@),
{
    match read_duration(value) {
        Ok(ms) => ms <= u64::MAX as u128,
        Err(_) => true,
    }
}

/// Reads a duration: `500ms`, `2s`, `5m`, `1h`, or a bare number of
/// milliseconds.
pub fn parse_duration(value: &str) -> (r: Result<Duration, String>)
    requires
        duration_in_range(value@),
    ensures
        r is Ok == duration_of(value@) is Ok,
        r is Ok ==> r->Ok_0.nanos == duration_of(value@)->Ok_0 * NANOS_PER_MILLI,
        r is Err ==> r->Err_0@ == duration_of(value@)->Err_0,
{
    match read_duration(value) {
        Ok(ms) => Ok(Duration::from_millis(ms as u64)),
        Err(e) => Err(e),
    }
}

/// The shortest exact text for a number of milliseconds: the largest unit that
/// divides it.
pub open spec fn duration_text(ms: nat) -> Seq<char> {
    if ms == 0 {
        "0s"@
    } else if ms % 3_600_000 == 0 {
        decimal(ms / 3_600_000) + "h"@
    } else if ms % 60_000 == 0 {
        decimal(ms / 60_000) + "m"@
    } else if ms % 1_000 == 0 {
        decimal(ms / 1_000) + "s"@
    } else {
        decimal(ms) + "ms"@
    }
}

/// The whole milliseconds of a span, kept to 64 bits.
pub open spec fn whole_millis(d: Duration) -> nat {
    (d.nanos / NANOS_PER_MILLI) as nat % 0x1_0000_0000_0000_0000
}

/// The shortest exact text: `1h`, `5m`, `90s`, `1500ms`.
pub fn format_duration(duration: Duration) -> (r: String)
    ensures
        r@ == duration_text(whole_millis(duration)),
{
    let ms: u128 = duration.as_millis() % 0x1_0000_0000_0000_0000;
    if ms == 0 {
        "0s".to_owned()
    } else if ms % 3_600_000 == 0 {
        number_text(ms / 3_600_000).concat("h")
    } else if ms % 60_000 == 0 {
        number_text(ms / 60_000).concat("m")
    } else if ms % 1_000 == 0 {
        number_text(ms / 1_000).concat("s")
    } else {
        number_text(ms).concat("ms")
    }
}

/// How many bytes a unit of size has; nothing for an unknown unit. Units with
/// an `i` and bare letters are binary, the others decimal.
pub open spec fn size_unit(unit: Seq<char>) -> Option<nat> {
    if unit == "b"@ {
        Some(1)
    } else if unit == "k"@ || unit == "kib"@ {
        Some(0x400)
    } else if unit == "m"@ || unit == "mib"@ {
        Some(0x10_0000)
    } else if unit == "g"@ || unit == "gib"@ {
        Some(0x4000_0000)
    } else if unit == "t"@ || unit == "tib"@ {
        Some(0x100_0000_0000)
    } else if unit == "kb"@ {
        Some(1_000)
    } else if unit == "mb"@ {
        Some(1_000_000)
    } else if unit == "gb"@ {
        Some(1_000_000_000)
    } else if unit == "tb"@ {
        Some(1_000_000_000_000)
    } else {
        None
    }
}

/// The bytes that a size's text stands for, or the message for a text that is
/// no size.
pub open spec fn size_of_text(value: Seq<char>) -> Result<nat, Seq<char>> {
    let v = trimmed(value);
    let n = leading_digits(v);
    let unit = lowered(trimmed(v.skip(n)));
    if v.len() == 0 {
        Err("empty size"@)
    } else if parsed_number(v.take(n)) is None {
        Err("invalid size: "@ + value)
    } else if n == v.len() {
        Ok(parsed_number(v.take(n))->0 as nat)
    } else if size_unit(unit) is None {
        Err(
            "invalid size unit: "@ + unit
                + " (use B, KiB, MiB, GiB, TiB or their KB/MB/GB forms)"@,
        )
    } else if parsed_number(v.take(n))->0 * size_unit(unit)->0 > u64::MAX {
        Err("size out of range: "@ + value)
    } else {
        Ok((parsed_number(v.take(n))->0 * size_unit(unit)->0) as nat)
    }
}

fn size_factor(unit: &Vec<char>) -> (r: Option<u64>)
    ensures
        r is Some == size_unit(unit@) is Some,
        r is Some ==> r->0 == size_unit(unit@)->0,
{
    if is_text(unit, "b") {
        Some(1)
    } else if is_text(unit, "k") || is_text(unit, "kib") {
        Some(0x400)
    } else if is_text(unit, "m") || is_text(unit, "mib") {
        Some(0x10_0000)
    } else if is_text(unit, "g") || is_text(unit, "gib") {
        Some(0x4000_0000)
    } else if is_text(unit, "t") || is_text(unit, "tib") {
        Some(0x100_0000_0000)
    } else if is_text(unit, "kb") {
        Some(1_000)
    } else if is_text(unit, "mb") {
        Some(1_000_000)
    } else if is_text(unit, "gb") {
        Some(1_000_000_000)
    } else if is_text(unit, "tb") {
        Some(1_000_000_000_000)
    } else {
        None
    }
}

/// Reads a size: `4GiB`, `512MiB`, `2GB`, or a bare number of bytes.
pub fn parse_size(value: &str) -> (r: Result<u64, String>)
    ensures
        r is Ok ==> size_of_text(value@) == Ok::<nat, Seq<char>>(r->Ok_0 as nat),
        r is Err ==> size_of_text(value@) == Err::<nat, Seq<char>>(r->Err_0@),
{
    let v = trim(&chars_of(value));
    if v.len() == 0 {
        return Err("empty size".to_owned());
    }
    let n: usize = count_digits(&v);
    let digits = part(&v, 0, n);
    assert(digits@ =~= v@.take(n as int));
    let number: u64 = match parse_digits(&digits) {
        Some(number) => number,
        None => {
            return Err("invalid size: ".to_owned().concat(value));
        },
    };
    if n == v.len() {
        return Ok(number);
    }
    let rest = part(&v, n, v.len());
    assert(rest@ =~= v@.skip(n as int));
    let unit = to_lower(&trim(&rest));
    match size_factor(&unit) {
        Some(factor) => match number.checked_mul(factor) {
            Some(bytes) => Ok(bytes),
            None => Err("size out of range: ".to_owned().concat(value)),
        },
        None => Err(
            "invalid size unit: ".to_owned().concat(string_of(&unit).as_str()).concat(
                " (use B, KiB, MiB, GiB, TiB or their KB/MB/GB forms)",
            ),
        ),
    }
}

/// The shortest exact text for a number of bytes: the largest binary unit that
/// divides it.
pub open spec fn size_text(bytes: nat) -> Seq<char> {
    if bytes > 0 && bytes % 0x100_0000_0000 == 0 {
        decimal(bytes / 0x100_0000_0000) + "TiB"@
    } else if bytes > 0 && bytes % 0x4000_0000 == 0 {
        decimal(bytes / 0x4000_0000) + "GiB"@
    } else if bytes > 0 && bytes % 0x10_0000 == 0 {
        decimal(bytes / 0x10_0000) + "MiB"@
    } else if bytes > 0 && bytes % 0x400 == 0 {
        decimal(bytes / 0x400) + "KiB"@
    } else {
        decimal(bytes) + "B"@
    }
}

/// The shortest exact binary text: `4GiB`, `512MiB`, `1536B`.
pub fn format_size(bytes: u64) -> (r: String)
    ensures
        r@ == size_text(bytes as nat),
{
    if bytes > 0 && bytes % 0x100_0000_0000 == 0 {
        number_text((bytes / 0x100_0000_0000) as u128).concat("TiB")
    } else if bytes > 0 && bytes % 0x4000_0000 == 0 {
        number_text((bytes / 0x4000_0000) as u128).concat("GiB")
    } else if bytes > 0 && bytes % 0x10_0000 == 0 {
        number_text((bytes / 0x10_0000) as u128).concat("MiB")
    } else if bytes > 0 && bytes % 0x400 == 0 {
        number_text((bytes / 0x400) as u128).concat("KiB")
    } else {
        number_text(bytes as u128).concat("B")
    }
}

/// A number and a unit of letters, written together, come apart again.
proof fn lemma_number_and_unit(n: nat, unit: Seq<char>)
    requires
        n <= u64::MAX,
        unit.len() > 0,
        forall|i: int| 0 <= i < unit.len() ==> !is_space(#[trigger] unit[i]) && !is_digit(unit[i]),
    ensures
        ({
            let v = trimmed(decimal(n) + unit);
            let k = leading_digits(v);
            &&& v == decimal(n) + unit
            &&& 0 < k < v.len()
            &&& parsed_number(v.take(k)) == Some(n as u64)
            &&& trimmed(v.skip(k)) == unit
        }),
{
    let d = decimal(n);
    let v = d + unit;
    lemma_decimal(n);
    assert(is_digit(d[0]));
    assert(v[0] == d[0]);
    assert(v.last() == unit.last());
    lemma_trimmed_fixed(v);
    lemma_leading_digits(d, unit);
    assert(v.take(d.len() as int) =~= d);
    assert(v.skip(d.len() as int) =~= unit);
    lemma_trimmed_fixed(unit);
}

/// A duration's text reads back as the duration, for every whole number of
/// milliseconds in 64 bits.
pub proof fn law_duration_round_trip(ms: nat)
    requires
        ms <= u64::MAX,
    ensures
        duration_of(duration_text(ms)) == Ok::<nat, Seq<char>>(ms),
{
    reveal_strlit("0s");
    reveal_strlit("h");
    reveal_strlit("m");
    reveal_strlit("s");
    reveal_strlit("ms");
    assert("h"@[0] == 'h' && "m"@[0] == 'm' && "s"@[0] == 's');
    if ms == 0 {
        assert("0s"@ =~= decimal(0) + "s"@);
        lemma_number_and_unit(0, "s"@);
    } else if ms % 3_600_000 == 0 {
        lemma_number_and_unit(ms / 3_600_000, "h"@);
        assert(time_unit("h"@) == Some(3_600_000nat));
        assert((ms / 3_600_000) as u64 * 3_600_000nat == ms);
        assert(time_unit("ms"@) == Some(1nat));
        assert(ms as u64 * 1nat == ms);
    } else if ms % 60_000 == 0 {
        lemma_number_and_unit(ms / 60_000, "m"@);
        assert(time_unit("m"@) == Some(60_000nat));
        assert((ms / 60_000) as u64 * 60_000nat == ms);
    } else if ms % 1_000 == 0 {
        lemma_number_and_unit(ms / 1_000, "s"@);
        assert(time_unit("s"@) == Some(1_000nat));
        assert((ms / 1_000) as u64 * 1_000nat == ms);
    } else {
        lemma_number_and_unit(ms, "ms"@);
        assert(time_unit("ms"@) == Some(1nat));
        assert(ms as u64 * 1nat == ms);
    }
}

/// A number of milliseconds, seconds, minutes or hours stands for so many
/// milliseconds, and a bare number for milliseconds.
pub proof fn law_units_of_time(n: nat)
    requires
        n <= u64::MAX,
    ensures
        duration_of(decimal(n)) == Ok::<nat, Seq<char>>(n),
        duration_of(decimal(n) + "ms"@) == Ok::<nat, Seq<char>>(n),
        duration_of(decimal(n) + "s"@) == Ok::<nat, Seq<char>>(n * 1_000),
        duration_of(decimal(n) + "m"@) == Ok::<nat, Seq<char>>(n * 1_000 * 60),
        duration_of(decimal(n) + "h"@) == Ok::<nat, Seq<char>>(n * 1_000 * 60 * 60),
{
    reveal_strlit("h");
    reveal_strlit("m");
    reveal_strlit("s");
    reveal_strlit("ms");
    assert("h"@[0] == 'h' && "m"@[0] == 'm' && "s"@[0] == 's' && "ms"@[0] == 'm');
    assert("ms"@.len() == 2 && "m"@.len() == 1);
    lemma_number_and_unit(n, "ms"@);
    lemma_number_and_unit(n, "s"@);
    lemma_number_and_unit(n, "m"@);
    lemma_number_and_unit(n, "h"@);
    assert(time_unit("h"@) == Some(3_600_000nat));
    assert(time_unit("m"@) == Some(60_000nat));
    assert(time_unit("s"@) == Some(1_000nat));
    assert(time_unit("ms"@) == Some(1nat));
    assert(n as u64 * 1nat == n);
    assert(n as u64 * 3_600_000nat == n * 1_000 * 60 * 60);
    lemma_bare_number(n);
}

/// A bare number.
proof fn lemma_bare_number(n: nat)
    requires
        n <= u64::MAX,
    ensures
        ({
            let v = trimmed(decimal(n));
            &&& v == decimal(n)
            &&& v.len() > 0
            &&& leading_digits(v) == v.len()
            &&& parsed_number(v.take(leading_digits(v))) == Some(n as u64)
        }),
{
    let d = decimal(n);
    let none = Seq::<char>::empty();
    lemma_decimal(n);
    assert(is_digit(d[0]));
    assert(is_digit(d[d.len() - 1]));
    lemma_trimmed_fixed(d);
    lemma_leading_digits(d, none);
    assert(d + none =~= d);
    assert(d.take(d.len() as int) =~= d);
}

/// A unit that is none of the four makes no duration, and nothing without digits
/// at its start is one.
pub proof fn law_no_other_unit_of_time(value: Seq<char>)
    ensures
        duration_of(value) is Ok ==> {
            let v = trimmed(value);
            let unit = trimmed(v.skip(leading_digits(v)));
            &&& v.len() > 0
            &&& leading_digits(v) > 0
            &&& leading_digits(v) == v.len() || unit == "ms"@ || unit == "s"@ || unit == "m"@
                || unit == "h"@
        },
{
    let v = trimmed(value);
    if leading_digits(v) <= 0 {
        lemma_leading(v);
        assert(v.take(leading_digits(v)).len() == 0);
    }
}

/// The number of leading digits is no less than nothing.
proof fn lemma_leading(s: Seq<char>)
    ensures
        leading_digits(s) >= 0,
    decreases s.len(),
{
    if s.len() > 0 && is_digit(s[0]) {
        lemma_leading(s.drop_first());
    }
}

/// A number and a unit of size stand for so many bytes: units with an `i` and bare
/// letters count in powers of 1024, the others in powers of 1000. The case of the
/// letters does not count, and what 64 bits do not hold is refused.
pub proof fn law_units_of_size(n: nat, unit: Seq<char>, bytes: nat)
    requires
        n <= u64::MAX,
        unit.len() > 0,
        forall|i: int| 0 <= i < unit.len() ==> !is_space(#[trigger] unit[i]) && !is_digit(unit[i]),
        ({
            let u = lowered(unit);
            ||| u == "b"@ && bytes == 1
            ||| (u == "k"@ || u == "kib"@) && bytes == 1024
            ||| (u == "m"@ || u == "mib"@) && bytes == 1024 * 1024
            ||| (u == "g"@ || u == "gib"@) && bytes == 1024 * 1024 * 1024
            ||| (u == "t"@ || u == "tib"@) && bytes == 1024 * 1024 * 1024 * 1024nat
            ||| u == "kb"@ && bytes == 1_000
            ||| u == "mb"@ && bytes == 1_000_000
            ||| u == "gb"@ && bytes == 1_000_000_000
            ||| u == "tb"@ && bytes == 1_000_000_000_000
        }),
    ensures
        n * bytes <= u64::MAX ==> size_of_text(decimal(n) + unit) == Ok::<nat, Seq<char>>(
            n * bytes,
        ),
        n * bytes > u64::MAX ==> size_of_text(decimal(n) + unit) is Err,
        size_of_text(decimal(n)) == Ok::<nat, Seq<char>>(n),
{
    lemma_number_and_unit(n, unit);
    lemma_bare_number(n);
    lemma_size_units();
    assert(n as u64 * bytes == n * bytes);
}

/// The units of size are different texts.
proof fn lemma_size_units()
    ensures
        size_unit("b"@) == Some(1nat),
        size_unit("k"@) == Some(1024nat) && size_unit("kib"@) == Some(1024nat),
        size_unit("m"@) == Some(1_048_576nat) && size_unit("mib"@) == Some(1_048_576nat),
        size_unit("g"@) == Some(1_073_741_824nat) && size_unit("gib"@) == Some(1_073_741_824nat),
        size_unit("t"@) == Some(1_099_511_627_776nat) && size_unit("tib"@) == Some(
            1_099_511_627_776nat,
        ),
        size_unit("kb"@) == Some(1_000nat),
        size_unit("mb"@) == Some(1_000_000nat),
        size_unit("gb"@) == Some(1_000_000_000nat),
        size_unit("tb"@) == Some(1_000_000_000_000nat),
{
    reveal_strlit("b");
    reveal_strlit("k");
    reveal_strlit("m");
    reveal_strlit("g");
    reveal_strlit("t");
    reveal_strlit("kib");
    reveal_strlit("mib");
    reveal_strlit("gib");
    reveal_strlit("tib");
    reveal_strlit("kb");
    reveal_strlit("mb");
    reveal_strlit("gb");
    reveal_strlit("tb");
    assert("b"@[0] == 'b' && "k"@[0] == 'k' && "m"@[0] == 'm' && "g"@[0] == 'g' && "t"@[0] == 't');
    assert("kib"@[0] == 'k' && "mib"@[0] == 'm' && "gib"@[0] == 'g' && "tib"@[0] == 't');
    assert("kb"@[0] == 'k' && "mb"@[0] == 'm' && "gb"@[0] == 'g' && "tb"@[0] == 't');
    assert("k"@.len() == 1 && "kb"@.len() == 2 && "kib"@.len() == 3);
    assert("m"@.len() == 1 && "mb"@.len() == 2 && "mib"@.len() == 3);
    assert("g"@.len() == 1 && "gb"@.len() == 2 && "gib"@.len() == 3);
    assert("t"@.len() == 1 && "tb"@.len() == 2 && "tib"@.len() == 3);
}

/// A size's text reads back as the size, for every number of bytes in 64 bits.
pub proof fn law_size_round_trip(bytes: nat)
    requires
        bytes <= u64::MAX,
    ensures
        size_of_text(size_text(bytes)) == Ok::<nat, Seq<char>>(bytes),
{
    reveal_strlit("TiB");
    reveal_strlit("GiB");
    reveal_strlit("MiB");
    reveal_strlit("KiB");
    reveal_strlit("B");
    reveal_strlit("tib");
    reveal_strlit("gib");
    reveal_strlit("mib");
    reveal_strlit("kib");
    reveal_strlit("b");
    reveal_strlit("k");
    reveal_strlit("m");
    reveal_strlit("g");
    reveal_strlit("t");
    assert(lowered("TiB"@) =~= "tib"@);
    assert(lowered("GiB"@) =~= "gib"@);
    assert(lowered("MiB"@) =~= "mib"@);
    assert(lowered("KiB"@) =~= "kib"@);
    assert(lowered("B"@) =~= "b"@);
    assert("b"@[0] == 'b' && "k"@[0] == 'k' && "m"@[0] == 'm' && "g"@[0] == 'g' && "t"@[0] == 't');
    assert("gib"@[0] == 'g' && "tib"@[0] == 't' && "mib"@[0] == 'm' && "kib"@[0] == 'k');
    if bytes > 0 && bytes % 0x100_0000_0000 == 0 {
        lemma_number_and_unit(bytes / 0x100_0000_0000, "TiB"@);
        assert(size_unit("tib"@) == Some(0x100_0000_0000nat));
        assert((bytes / 0x100_0000_0000) as u64 * 0x100_0000_0000nat == bytes);
    } else if bytes > 0 && bytes % 0x4000_0000 == 0 {
        lemma_number_and_unit(bytes / 0x4000_0000, "GiB"@);
        assert(size_unit("gib"@) == Some(0x4000_0000nat));
        assert((bytes / 0x4000_0000) as u64 * 0x4000_0000nat == bytes);
    } else if bytes > 0 && bytes % 0x10_0000 == 0 {
        lemma_number_and_unit(bytes / 0x10_0000, "MiB"@);
        assert(size_unit("mib"@) == Some(0x10_0000nat));
        assert((bytes / 0x10_0000) as u64 * 0x10_0000nat == bytes);
    } else if bytes > 0 && bytes % 0x400 == 0 {
        lemma_number_and_unit(bytes / 0x400, "KiB"@);
        assert(size_unit("kib"@) == Some(0x400nat));
        assert((bytes / 0x400) as u64 * 0x400nat == bytes);
    } else {
        lemma_number_and_unit(bytes, "B"@);
        assert(size_unit("b"@) == Some(1nat));
        assert(bytes as u64 * 1nat == bytes);
    }
}

/// What the collector gathers and how often.
#[derive(Debug, Clone)]
pub struct CollectorConfig {
    /// Whether to collect processes
    pub collect_processes: bool,
    /// How often to refresh the process list; zero means every time
    pub process_refresh_interval: Duration,
    /// While at least this many cores are busy (in millionths of a core) the
    /// process list refreshes every time; none or zero turns that off
    pub process_boost_cpu_cores: Option<u64>,
    /// How many processes to keep
    pub max_processes: usize,
    /// Whether to collect each process's disk rates
    pub collect_process_disk_io: bool,
    /// Whether to add up whole process trees
    pub collect_process_groups: bool,
    /// Whether to collect the usage of each core
    pub per_core_cpu: bool,
    /// How often to refresh the processor frequency; zero means every time
    pub cpu_frequency_refresh_interval: Duration,
    /// Whether to collect disks
    pub collect_disks: bool,
    /// How often to refresh disk capacity
    pub disk_storage_refresh_interval: Duration,
    /// How often to refresh disk counters; zero means every time
    pub disk_io_refresh_interval: Duration,
    /// Keep one entry per disk name, the one with the shortest mount point
    pub dedupe_disks: bool,
    /// Whether to collect network interfaces
    pub collect_networks: bool,
    /// How often to refresh network counters; zero means every time
    pub network_refresh_interval: Duration,
    /// Whether to collect the battery
    pub collect_battery: bool,
    /// How often to refresh the battery; zero means every time
    pub battery_refresh_interval: Duration,
    /// Whether to collect GPUs
    pub collect_gpu: bool,
    /// How often to refresh GPUs; zero means every time
    pub gpu_refresh_interval: Duration,
    /// Whether to collect physical drives
    pub collect_drives: bool,
    /// How often to refresh physical drives; zero means every time
    pub drive_refresh_interval: Duration,
    /// Whether to collect temperatures
    pub collect_temperatures: bool,
    /// How often to refresh temperatures; zero means every time
    pub temperature_refresh_interval: Duration,
    /// Labels for the host
    pub labels: Vec<(String, String)>,
    /// How long one collection may take
    pub collect_timeout: Duration,
}

/// A span of `secs` seconds.
pub open spec fn seconds(secs: nat) -> Duration {
    Duration { nanos: (secs * 1_000_000_000) as u128 }
}

/// The collector's settings as values.
pub ghost struct CollectorView {
    pub collect_processes: bool,
    pub process_refresh_interval: Duration,
    pub process_boost_cpu_cores: Option<u64>,
    pub max_processes: usize,
    pub collect_process_disk_io: bool,
    pub collect_process_groups: bool,
    pub per_core_cpu: bool,
    pub cpu_frequency_refresh_interval: Duration,
    pub collect_disks: bool,
    pub disk_storage_refresh_interval: Duration,
    pub disk_io_refresh_interval: Duration,
    pub dedupe_disks: bool,
    pub collect_networks: bool,
    pub network_refresh_interval: Duration,
    pub collect_battery: bool,
    pub battery_refresh_interval: Duration,
    pub collect_gpu: bool,
    pub gpu_refresh_interval: Duration,
    pub collect_drives: bool,
    pub drive_refresh_interval: Duration,
    pub collect_temperatures: bool,
    pub temperature_refresh_interval: Duration,
    pub labels: Seq<(String, String)>,
    pub collect_timeout: Duration,
}

impl View for CollectorConfig {
    type V = CollectorView;

    open spec fn view(&self) -> CollectorView {
        CollectorView {
            collect_processes: self.collect_processes,
            process_refresh_interval: self.process_refresh_interval,
            process_boost_cpu_cores: self.process_boost_cpu_cores,
            max_processes: self.max_processes,
            collect_process_disk_io: self.collect_process_disk_io,
            collect_process_groups: self.collect_process_groups,
            per_core_cpu: self.per_core_cpu,
            cpu_frequency_refresh_interval: self.cpu_frequency_refresh_interval,
            collect_disks: self.collect_disks,
            disk_storage_refresh_interval: self.disk_storage_refresh_interval,
            disk_io_refresh_interval: self.disk_io_refresh_interval,
            dedupe_disks: self.dedupe_disks,
            collect_networks: self.collect_networks,
            network_refresh_interval: self.network_refresh_interval,
            collect_battery: self.collect_battery,
            battery_refresh_interval: self.battery_refresh_interval,
            collect_gpu: self.collect_gpu,
            gpu_refresh_interval: self.gpu_refresh_interval,
            collect_drives: self.collect_drives,
            drive_refresh_interval: self.drive_refresh_interval,
            collect_temperatures: self.collect_temperatures,
            temperature_refresh_interval: self.temperature_refresh_interval,
            labels: self.labels@,
            collect_timeout: self.collect_timeout,
        }
    }
}

/// The builtin settings on the named operating system. Windows reads its sensors
/// through an interface that changes the whole process, so they are off there.
#[verifier::opaque]
pub open spec fn default_collector(target: Seq<char>) -> CollectorView {
    CollectorView {
        collect_processes: true,
        process_refresh_interval: seconds(0),
        process_boost_cpu_cores: Some((2 * UNIT) as u64),
        max_processes: 50,
        collect_process_disk_io: false,
        collect_process_groups: true,
        per_core_cpu: true,
        cpu_frequency_refresh_interval: seconds(30),
        collect_disks: true,
        disk_storage_refresh_interval: seconds(60),
        disk_io_refresh_interval: seconds(0),
        dedupe_disks: true,
        collect_networks: true,
        network_refresh_interval: seconds(0),
        collect_battery: true,
        battery_refresh_interval: seconds(30),
        collect_gpu: true,
        gpu_refresh_interval: seconds(10),
        collect_drives: true,
        drive_refresh_interval: seconds(10),
        collect_temperatures: target != "windows"@,
        temperature_refresh_interval: seconds(15),
        labels: Seq::empty(),
        collect_timeout: seconds(2),
    }
}

impl CollectorConfig {
    /// The builtin settings on the named operating system.
    pub fn default(target_os: &str) -> (r: CollectorConfig)
        ensures
            r@ == default_collector(target_os@),
    {
        proof {
            reveal(default_collector);
        }
        let r = CollectorConfig {
            collect_processes: true,
            process_refresh_interval: Duration::zero(),
            process_boost_cpu_cores: Some(2 * UNIT),
            max_processes: 50,
            collect_process_disk_io: false,
            collect_process_groups: true,
            per_core_cpu: true,
            cpu_frequency_refresh_interval: Duration::from_secs(30),
            collect_disks: true,
            disk_storage_refresh_interval: Duration::from_secs(60),
            disk_io_refresh_interval: Duration::zero(),
            dedupe_disks: true,
            collect_networks: true,
            network_refresh_interval: Duration::zero(),
            collect_battery: true,
            battery_refresh_interval: Duration::from_secs(30),
            collect_gpu: true,
            gpu_refresh_interval: Duration::from_secs(10),
            collect_drives: true,
            drive_refresh_interval: Duration::from_secs(10),
            collect_temperatures: !same_text(target_os, "windows"),
            temperature_refresh_interval: Duration::from_secs(15),
            labels: Vec::new(),
            collect_timeout: Duration::from_secs(2),
        };
        assert(r.labels@ =~= Seq::empty());
        r
    }
}

} // verus!
