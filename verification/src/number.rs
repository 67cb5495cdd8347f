//! Numbers with a fraction, counted in millionths: percentages, processor
//! cores, degrees and watts.
use vstd::prelude::*;
use vstd::string::*;
use crate::text::{
    all_digits, chars_of, count_digits, decimal, digits_only, is_digit, is_text, leading_digits,
    lemma_leading_digits, lowered, number_of, part, push_number, string_of, to_lower,
};

verus! {

/// One whole unit: one percent, one core, one degree.
pub const UNIT: u64 = 1_000_000;

/// The quotient rounded to the nearest whole number, a half to the even one.
pub open spec fn rounded(n: nat, d: nat) -> nat {
    let q = n / d;
    let r = n % d;
    if 2 * r > d || (2 * r == d && q % 2 == 1) {
        q + 1
    } else {
        q
    }
}

/// `n / d` rounded to the nearest whole number, a half to the even one.
pub fn round_div(n: u128, d: u128) -> (r: u128)
    requires
        0 < d <= u128::MAX / 2,
    ensures
        r == rounded(n as nat, d as nat),
{
    let q: u128 = n / d;
    let rest: u128 = n % d;
    if 2 * rest > d || (2 * rest == d && q % 2 == 1) {
        proof {
            assert(q <= n) by (nonlinear_arith)
                requires
                    q == n / d,
                    d >= 1,
            ;
            if q == u128::MAX {
                assert(d * q + rest == n) by (nonlinear_arith)
                    requires
                        q == n / d,
                        rest == n % d,
                        d >= 1,
                ;
                assert(d * q >= q) by (nonlinear_arith)
                    requires
                        d >= 1,
                        q >= 0,
                ;
                assert(rest == 0);
            }
        }
        q + 1
    } else {
        q
    }
}

/// A number of tenths, written with one digit after the point.
pub open spec fn tenths_text(t: nat) -> Seq<char> {
    decimal(t / 10) + seq!['.'] + decimal(t % 10)
}

/// Appends a number of tenths, with one digit after the point.
pub fn push_tenths(out: &mut String, t: u128)
    ensures
        final(out)@ == old(out)@ + tenths_text(t as nat),
{
    push_number(out, t / 10);
    out.push('.');
    push_number(out, t % 10);
    assert(out@ =~= old(out)@ + tenths_text(t as nat));
}

/// Ten to the power `k`.
pub open spec fn pow10(k: nat) -> nat
    decreases k,
{
    if k == 0 {
        1
    } else {
        10 * pow10((k - 1) as nat)
    }
}

/// A number as written: the digits before and after the point, and the power
/// of ten that multiplies it.
pub ghost struct Numeral {
    pub whole: Seq<char>,
    pub fraction: Seq<char>,
    pub exponent: int,
}

/// The power of ten written after an `e`: digits with an optional sign.
pub open spec fn exponent_of(s: Seq<char>) -> Option<int> {
    let signed = s.len() > 0 && (s[0] == '+' || s[0] == '-');
    let digits = if signed {
        s.skip(1)
    } else {
        s
    };
    if digits.len() == 0 || !all_digits(digits) {
        None
    } else if signed && s[0] == '-' {
        Some(-(number_of(digits) as int))
    } else {
        Some(number_of(digits) as int)
    }
}

/// The text after the whole digits: the digits after a point, and what follows
/// them.
pub open spec fn after_point(s: Seq<char>) -> (Seq<char>, Seq<char>) {
    if s.len() > 0 && s[0] == '.' {
        let t = s.skip(1);
        (t.take(leading_digits(t)), t.skip(leading_digits(t)))
    } else {
        (Seq::<char>::empty(), s)
    }
}

/// Digits with an optional point and an optional power of ten; a digit must
/// stand before or after the point.
pub open spec fn numeral_of(s: Seq<char>) -> Option<Numeral> {
    let whole = s.take(leading_digits(s));
    let fraction = after_point(s.skip(leading_digits(s))).0;
    let rest = after_point(s.skip(leading_digits(s))).1;
    if whole.len() + fraction.len() == 0 {
        None
    } else if rest.len() == 0 {
        Some(Numeral { whole, fraction, exponent: 0 })
    } else if rest[0] == 'e' || rest[0] == 'E' {
        match exponent_of(rest.skip(1)) {
            Some(exponent) => Some(Numeral { whole, fraction, exponent }),
            None => None,
        }
    } else {
        None
    }
}

/// The digits with the point after the first `point` of them, rounded up to a
/// whole number.
pub open spec fn placed(digits: Seq<char>, point: int) -> nat {
    if point <= 0 {
        if number_of(digits) == 0 {
            0
        } else {
            1
        }
    } else if point >= digits.len() {
        number_of(digits) * pow10((point - digits.len()) as nat)
    } else {
        number_of(digits.take(point)) + if number_of(digits.skip(point)) == 0 {
            0nat
        } else {
            1
        }
    }
}

/// The largest number of millionths that a setting holds.
pub const MOST: u64 = 9_223_372_036_854_775_807;

/// `n`, or the largest number a setting holds where `n` is larger.
pub open spec fn capped(n: nat) -> nat {
    if n <= MOST {
        n
    } else {
        MOST as nat
    }
}

/// A numeral in millionths, rounded up, so that only zero becomes zero.
pub open spec fn millionths(n: Numeral) -> nat {
    placed(n.whole + n.fraction, n.whole.len() + n.exponent + 6)
}

/// What a text reads as.
#[derive(Debug, Clone, Copy, PartialEq, Eq, Structural)]
pub enum Reading {
    /// The words for a value that is no number
    NotANumber,
    /// A number of millionths, away from zero where there are finer digits and
    /// cut to the range of the type
    Millionths(i64),
}

/// The text without its sign.
pub open spec fn unsigned_part(s: Seq<char>) -> Seq<char> {
    if s.len() > 0 && (s[0] == '+' || s[0] == '-') {
        s.skip(1)
    } else {
        s
    }
}

/// A magnitude with the sign that `s` starts with.
pub open spec fn with_sign(s: Seq<char>, magnitude: nat) -> Reading {
    if s.len() > 0 && s[0] == '-' {
        Reading::Millionths((0 - capped(magnitude)) as i64)
    } else {
        Reading::Millionths(capped(magnitude) as i64)
    }
}

/// What `s` reads as: a sign, then a numeral or one of the words `inf`,
/// `infinity` and `nan` in any case.
pub open spec fn reading_of(s: Seq<char>) -> Option<Reading> {
    let body = unsigned_part(s);
    if lowered(body) == "nan"@ {
        Some(Reading::NotANumber)
    } else if lowered(body) == "inf"@ || lowered(body) == "infinity"@ {
        Some(with_sign(s, (MOST + 1) as nat))
    } else {
        match numeral_of(body) {
            Some(n) => Some(with_sign(s, millionths(n))),
            None => None,
        }
    }
}

/// Ten to a power is positive and grows tenfold with each step.
proof fn lemma_pow10(k: nat)
    ensures
        pow10(k) >= 1,
        pow10(k + 1) == 10 * pow10(k),
        k >= 19 ==> pow10(k) > MOST,
    decreases k,
{
    if k > 0 {
        lemma_pow10((k - 1) as nat);
    }
    if k == 19 {
        reveal_with_fuel(pow10, 20);
    }
}

/// Capping before a step of the decimal reading does not change its capped
/// result.
proof fn lemma_capped_step(a: nat, d: nat)
    ensures
        capped(capped(a) * 10 + d) == capped(a * 10 + d),
{
}

/// A run of digits stands for zero exactly when each digit is zero.
proof fn lemma_zero_digits(s: Seq<char>)
    requires
        all_digits(s),
    ensures
        number_of(s) == 0 <==> forall|i: int| 0 <= i < s.len() ==> s[i] == '0',
    decreases s.len(),
{
    if s.len() > 0 {
        assert(all_digits(s.drop_last()));
        lemma_zero_digits(s.drop_last());
        assert(is_digit(s.last()));
        if number_of(s) == 0 {
            assert forall|i: int| 0 <= i < s.len() implies s[i] == '0' by {
                if i < s.len() - 1 {
                    assert(s.drop_last()[i] == s[i]);
                }
            }
        }
        if forall|i: int| 0 <= i < s.len() ==> s[i] == '0' {
            assert(s.last() == '0');
            assert forall|i: int| 0 <= i < s.drop_last().len() implies s.drop_last()[i] == '0' by {
                assert(s[i] == '0');
            }
        }
    }
}

/// Digits with the point after the first `point`, rounded up and capped.
fn place(digits: &Vec<char>, point: i128) -> (r: u64)
    requires
        all_digits(digits@),
        -0x4000_0000_0000_0000_0000_0000_0000_0000 <= point
            <= 0x4000_0000_0000_0000_0000_0000_0000_0000,
    ensures
        r == capped(placed(digits@, point as int)),
{
    let len: i128 = digits.len() as i128;
    let taken: usize = if point <= 0 {
        0
    } else if point >= len {
        digits.len()
    } else {
        point as usize
    };
    let mut acc: u64 = 0;
    for i in 0..taken
        invariant
            taken <= digits.len(),
            all_digits(digits@),
            acc == capped(number_of(digits@.take(i as int))),
    {
        let d: u64 = digits[i] as u64 - 48;
        proof {
            assert(is_digit(digits@[i as int]));
            assert(digits@.take(i as int + 1).drop_last() =~= digits@.take(i as int));
            lemma_capped_step(number_of(digits@.take(i as int)), d as nat);
        }
        acc = if acc > (MOST - d) / 10 {
            MOST
        } else {
            acc * 10 + d
        };
    }
    let mut finer: bool = false;
    for i in taken..digits.len()
        invariant
            taken <= digits.len(),
            all_digits(digits@),
            finer <==> exists|j: int| taken <= j < i && digits@[j] != '0',
    {
        if digits[i] != '0' {
            finer = true;
        }
    }
    if point > 0 && point >= len {
        let zeros: i128 = point - len;
        let mut k: i128 = 0;
        assert(digits@.take(digits.len() as int) =~= digits@);
        let ghost n = number_of(digits@);
        assert(pow10(0) == 1 && n * 1 == n);
        while k < zeros && acc != 0 && acc < MOST
            invariant
                0 <= k <= zeros,
                acc == capped(n * pow10(k as nat)),
                (n == 0) == (acc == 0),
            decreases zeros - k,
        {
            proof {
                lemma_pow10(k as nat);
                lemma_capped_step(n * pow10(k as nat), 0);
                assert(n * pow10(k as nat + 1) == (n * pow10(k as nat)) * 10) by (nonlinear_arith)
                    requires
                        pow10(k as nat + 1) == 10 * pow10(k as nat),
                ;
            }
            acc = if acc > MOST / 10 {
                MOST
            } else {
                acc * 10
            };
            k += 1;
        }
        proof {
            if k < zeros {
                if acc == 0 {
                    assert(n * pow10(zeros as nat) == 0) by (nonlinear_arith)
                        requires
                            n == 0,
                    ;
                } else {
                    lemma_pow10_grows(k as nat, zeros as nat);
                    assert(n * pow10(k as nat) <= n * pow10(zeros as nat)) by (nonlinear_arith)
                        requires
                            pow10(k as nat) <= pow10(zeros as nat),
                    ;
                }
            }
        }
        return acc;
    }
    proof {
        let rest = digits@.skip(taken as int);
        assert(all_digits(rest)) by {
            assert forall|i: int| 0 <= i < rest.len() implies is_digit(#[trigger] rest[i]) by {
                assert(is_digit(digits@[taken + i]));
            }
        }
        lemma_zero_digits(rest);
        if finer {
            let j = choose|j: int| taken <= j < digits.len() && digits@[j] != '0';
            assert(rest[j - taken] != '0');
        } else {
            assert forall|i: int| 0 <= i < rest.len() implies rest[i] == '0' by {
                assert(digits@[taken + i] == '0');
            }
        }
        if point <= 0 {
            assert(rest =~= digits@);
            assert(digits@.take(0) =~= seq![]);
        }
    }
    if finer && acc < MOST {
        acc + 1
    } else {
        acc
    }
}

/// Powers of ten grow.
proof fn lemma_pow10_grows(a: nat, b: nat)
    requires
        a <= b,
    ensures
        pow10(a) <= pow10(b),
    decreases b,
{
    if a < b {
        lemma_pow10_grows(a, (b - 1) as nat);
        lemma_pow10((b - 1) as nat);
    }
}

/// Powers of ten beyond this one act alike: every digit that is not zero is
/// then out of range.
const FAR: i128 = 1_000_000_000_000_000_000_000_000_000_000;

/// The exponent, cut to a range beyond which it makes no difference.
fn read_exponent(s: &Vec<char>) -> (r: Option<i128>)
    ensures
        r is Some == exponent_of(s@) is Some,
        r is Some ==> -FAR <= r->0 <= FAR,
        r is Some ==> r->0 == exponent_of(s@)->0 || (r->0 == FAR && exponent_of(s@)->0 >= FAR) || (
        r->0 == -FAR && exponent_of(s@)->0 <= -FAR),
{
    let signed: bool = s.len() > 0 && (s[0] == '+' || s[0] == '-');
    let from: usize = if signed {
        1
    } else {
        0
    };
    let digits = part(s, from, s.len());
    proof {
        if signed {
            assert(digits@ =~= s@.skip(1));
        } else {
            assert(digits@ =~= s@);
        }
    }
    if digits.len() == 0 || !digits_only(&digits) {
        return None;
    }
    let mut n: i128 = 0;
    for i in 0..digits.len()
        invariant
            all_digits(digits@),
            0 <= n <= FAR,
            n == number_of(digits@.take(i as int)) || (n == FAR && number_of(digits@.take(i as int))
                >= FAR),
    {
        let d: i128 = (digits[i] as u64 - 48) as i128;
        proof {
            assert(is_digit(digits@[i as int]));
            assert(digits@.take(i as int + 1).drop_last() =~= digits@.take(i as int));
        }
        n = if n >= FAR / 10 {
            FAR
        } else {
            n * 10 + d
        };
    }
    assert(digits@.take(digits.len() as int) =~= digits@);
    if signed && s[0] == '-' {
        Some(-n)
    } else {
        Some(n)
    }
}

/// Two places of the point that are both far off give one capped result.
proof fn lemma_far_points(digits: Seq<char>, p: int, q: int)
    requires
        p == q || (p <= 0 && q <= 0) || (p >= digits.len() + 19 && q >= digits.len() + 19),
    ensures
        capped(placed(digits, p)) == capped(placed(digits, q)),
{
    if p != q && p > 0 {
        let a = pow10((p - digits.len()) as nat);
        let b = pow10((q - digits.len()) as nat);
        lemma_pow10((p - digits.len()) as nat);
        lemma_pow10((q - digits.len()) as nat);
        let n = number_of(digits);
        assert(n == 0 ==> n * a == 0 && n * b == 0) by (nonlinear_arith);
        assert(n >= 1 ==> n * a >= a && n * b >= b) by (nonlinear_arith)
            requires
                a >= 1,
                b >= 1,
        ;
    }
}

/// The leading digits are digits, and at most as many as there are characters.
proof fn lemma_leading(s: Seq<char>)
    ensures
        0 <= leading_digits(s) <= s.len(),
        all_digits(s.take(leading_digits(s))),
    decreases s.len(),
{
    if s.len() > 0 && is_digit(s[0]) {
        let t = s.drop_first();
        lemma_leading(t);
        assert forall|i: int| 0 <= i < leading_digits(s) implies is_digit(
            #[trigger] s.take(leading_digits(s))[i],
        ) by {
            if i > 0 {
                assert(is_digit(t.take(leading_digits(t))[i - 1]));
            }
        }
    }
}

/// Whether a place of the point is the true one, or both are far off on the same
/// side.
spec fn same_point(cut: int, point: int) -> bool {
    cut == point || (cut >= FAR && point >= FAR) || (cut <= 0x1_0000_0000_0000_0000 - FAR && point
        <= 0x1_0000_0000_0000_0000 - FAR)
}

/// The digits of a numeral, and where its point stands among them.
fn split_numeral(s: &Vec<char>) -> (r: Option<(Vec<char>, i128)>)
    ensures
        r is Some == numeral_of(s@) is Some,
        r is Some ==> ({
            let n = numeral_of(s@)->0;
            let (digits, point) = r->0;
            &&& digits@ == n.whole + n.fraction
            &&& all_digits(digits@)
            &&& same_point(point as int, n.whole.len() + n.exponent)
            &&& -FAR <= point <= FAR + 0x1_0000_0000_0000_0000
        }),
{
    let n: usize = count_digits(s);
    proof {
        lemma_leading(s@);
    }
    let mut digits = part(s, 0, n);
    assert(digits@ =~= s@.take(n as int));
    let ghost whole = digits@;
    let rest = part(s, n, s.len());
    assert(rest@ =~= s@.skip(n as int));
    let mut tail = part(&rest, 0, rest.len());
    assert(tail@ =~= rest@);
    let ghost mut fraction = Seq::<char>::empty();
    if rest.len() > 0 && rest[0] == '.' {
        let t = part(&rest, 1, rest.len());
        assert(t@ =~= rest@.skip(1));
        let m: usize = count_digits(&t);
        proof {
            lemma_leading(t@);
        }
        let mut f = part(&t, 0, m);
        assert(f@ =~= t@.take(m as int));
        proof {
            fraction = f@;
        }
        digits.append(&mut f);
        tail = part(&t, m, t.len());
        assert(tail@ =~= t@.skip(m as int));
    }
    assert(digits@ =~= whole + fraction);
    assert(fraction == after_point(s@.skip(leading_digits(s@))).0);
    assert(tail@ == after_point(s@.skip(leading_digits(s@))).1);
    proof {
        assert forall|i: int| 0 <= i < digits@.len() implies is_digit(#[trigger] digits@[i]) by {
            if i < whole.len() {
                assert(is_digit(whole[i]));
            } else {
                assert(is_digit(fraction[i - whole.len()]));
            }
        }
    }
    if digits.len() == 0 {
        return None;
    }
    if tail.len() == 0 {
        return Some((digits, n as i128));
    }
    if tail[0] != 'e' && tail[0] != 'E' {
        return None;
    }
    let e = part(&tail, 1, tail.len());
    assert(e@ =~= tail@.skip(1));
    match read_exponent(&e) {
        None => None,
        Some(x) => Some((digits, n as i128 + x)),
    }
}

/// Reads a numeral in millionths, rounded up and capped.
fn read_numeral(s: &Vec<char>) -> (r: Option<u64>)
    ensures
        r is Some == numeral_of(s@) is Some,
        r is Some ==> r->0 == capped(millionths(numeral_of(s@)->0)),
{
    match split_numeral(s) {
        None => None,
        Some((digits, point)) => {
            let len: usize = digits.len();
            proof {
                let n = numeral_of(s@)->0;
                assert(digits@.len() == len);
                lemma_far_points(digits@, point + 6, n.whole.len() + n.exponent + 6);
            }
            Some(place(&digits, point + 6))
        },
    }
}

/// Reads a number the way floating-point numbers are written.
pub fn read_number(s: &Vec<char>) -> (r: Option<Reading>)
    ensures
        r == reading_of(s@),
{
    let signed: bool = s.len() > 0 && (s[0] == '+' || s[0] == '-');
    let from: usize = if signed {
        1
    } else {
        0
    };
    let body = part(s, from, s.len());
    proof {
        if signed {
            assert(body@ =~= s@.skip(1));
        } else {
            assert(body@ =~= s@);
        }
    }
    let low = to_lower(&body);
    if is_text(&low, "nan") {
        return Some(Reading::NotANumber);
    }
    let magnitude: u64 = if is_text(&low, "inf") || is_text(&low, "infinity") {
        MOST
    } else {
        match read_numeral(&body) {
            None => {
                return None;
            },
            Some(m) => m,
        }
    };
    if signed && s[0] == '-' {
        Some(Reading::Millionths(-(magnitude as i64)))
    } else {
        Some(Reading::Millionths(magnitude as i64))
    }
}

/// `n` zeros.
pub open spec fn zeros(n: nat) -> Seq<char> {
    Seq::new(n, |i: int| '0')
}

/// `s` without the zeros at its start.
pub open spec fn significant(s: Seq<char>) -> Seq<char>
    decreases s.len(),
{
    if s.len() > 0 && s[0] == '0' {
        significant(s.drop_first())
    } else {
        s
    }
}

/// `s` without the zeros at its end.
pub open spec fn without_zeros(s: Seq<char>) -> Seq<char>
    decreases s.len(),
{
    if s.len() > 0 && s.last() == '0' {
        without_zeros(s.drop_last())
    } else {
        s
    }
}

/// The point and the digits after it; nothing where they are zeros.
pub open spec fn fraction_text(s: Seq<char>) -> Seq<char> {
    if without_zeros(s).len() == 0 {
        Seq::empty()
    } else {
        seq!['.'] + without_zeros(s)
    }
}

/// Numbers of more digits than this before the point are beyond all range.
pub const MOST_DIGITS: i128 = 309;

/// Numbers of more zeros than this right after the point are nothing.
pub const MOST_ZEROS: i128 = 323;

/// Digits with the point after the first `point` of them, as a decimal number: no
/// point where it is whole, and no zeros that say nothing.
pub open spec fn plain_text(digits: Seq<char>, point: int) -> Seq<char> {
    let d = significant(digits);
    let p = point - (digits.len() - d.len());
    if d.len() == 0 || p < -MOST_ZEROS {
        seq!['0']
    } else if p > MOST_DIGITS {
        "inf"@
    } else if p <= 0 {
        seq!['0'] + fraction_text(zeros((0 - p) as nat) + d)
    } else if p >= d.len() {
        d + zeros((p - d.len()) as nat)
    } else {
        d.take(p) + fraction_text(d.skip(p))
    }
}

/// What `s` reads as, told again: a numeral without a power of ten.
pub open spec fn told_again(s: Seq<char>) -> Seq<char> {
    let body = unsigned_part(s);
    let sign = if s.len() > 0 && s[0] == '-' {
        seq!['-']
    } else {
        Seq::empty()
    };
    if lowered(body) == "nan"@ {
        "NaN"@
    } else if lowered(body) == "inf"@ || lowered(body) == "infinity"@ {
        sign + "inf"@
    } else {
        let n = numeral_of(body)->0;
        sign + plain_text(n.whole + n.fraction, n.whole.len() + n.exponent)
    }
}

/// Two places of the point that are both far off give one text.
proof fn lemma_far_texts(digits: Seq<char>, p: int, q: int)
    requires
        same_point(p, q),
        digits.len() <= 0xffff_ffff_ffff_ffff,
    ensures
        plain_text(digits, p) == plain_text(digits, q),
{
    lemma_significant(digits);
}

proof fn lemma_significant(s: Seq<char>)
    ensures
        significant(s).len() <= s.len(),
    decreases s.len(),
{
    if s.len() > 0 && s[0] == '0' {
        lemma_significant(s.drop_first());
    }
}

fn push_zeros(r: &mut Vec<char>, n: usize)
    ensures
        final(r)@ == old(r)@ + zeros(n as nat),
{
    let ghost start = r@;
    for i in 0..n
        invariant
            r@ =~= start + zeros(i as nat),
    {
        r.push('0');
    }
    assert(r@ =~= start + zeros(n as nat));
}

fn push_chars(r: &mut Vec<char>, s: &Vec<char>, from: usize, to: usize)
    requires
        from <= to <= s@.len(),
    ensures
        final(r)@ == old(r)@ + s@.subrange(from as int, to as int),
{
    let mut more = part(s, from, to);
    r.append(&mut more);
}

fn push_fraction(r: &mut Vec<char>, s: Vec<char>)
    ensures
        final(r)@ == old(r)@ + fraction_text(s@),
{
    let mut digits = s;
    while digits.len() > 0 && digits[digits.len() - 1] == '0'
        invariant
            without_zeros(digits@) == without_zeros(s@),
        decreases digits.len(),
    {
        digits.pop();
    }
    let ghost start = r@;
    if digits.len() > 0 {
        r.push('.');
        let ghost kept = digits@;
        r.append(&mut digits);
        assert(r@ =~= start + (seq!['.'] + kept));
    } else {
        assert(r@ =~= start + Seq::<char>::empty());
    }
}

/// Writes digits with a point among them.
fn push_plain(r: &mut Vec<char>, digits: &Vec<char>, point: i128)
    requires
        -FAR <= point <= FAR + 0x1_0000_0000_0000_0000,
    ensures
        final(r)@ == old(r)@ + plain_text(digits@, point as int),
{
    let n: usize = digits.len();
    let mut k: usize = 0;
    assert(digits@.skip(0) =~= digits@);
    while k < n && digits[k] == '0'
        invariant
            k <= n == digits@.len(),
            significant(digits@) == significant(digits@.skip(k as int)),
        decreases n - k,
    {
        assert(digits@.skip(k as int).drop_first() =~= digits@.skip(k as int + 1));
        k += 1;
    }
    let d = part(digits, k, n);
    assert(d@ =~= digits@.skip(k as int));
    assert(d@ == significant(digits@));
    let ghost start = r@;
    let p: i128 = point - k as i128;
    if d.len() == 0 || p < -MOST_ZEROS {
        r.push('0');
        assert(r@ =~= start + seq!['0']);
    } else if p > MOST_DIGITS {
        r.push('i');
        r.push('n');
        r.push('f');
        proof {
            reveal_strlit("inf");
            assert("inf"@ =~= seq!['i', 'n', 'f']);
            assert(r@ =~= start + "inf"@);
        }
    } else if p <= 0 {
        r.push('0');
        let mut f: Vec<char> = Vec::new();
        push_zeros(&mut f, (-p) as usize);
        push_chars(&mut f, &d, 0, d.len());
        assert(f@ =~= zeros((0 - p) as nat) + d@);
        let ghost fraction = fraction_text(f@);
        push_fraction(r, f);
        assert(r@ =~= start + (seq!['0'] + fraction));
    } else if p >= d.len() as i128 {
        push_chars(r, &d, 0, d.len());
        push_zeros(r, (p - d.len() as i128) as usize);
        assert(r@ =~= start + (d@ + zeros((p - d@.len()) as nat)));
    } else {
        push_chars(r, &d, 0, p as usize);
        let f = part(&d, p as usize, d.len());
        assert(f@ =~= d@.skip(p as int));
        let ghost fraction = fraction_text(f@);
        push_fraction(r, f);
        assert(r@ =~= start + (d@.take(p as int) + fraction));
    }
}

/// Tells again what a text reads as. The digits are those that were written,
/// however many.
pub fn tell_again(s: &Vec<char>) -> (r: String)
    requires
        reading_of(s@) is Some,
    ensures
        r@ == told_again(s@),
{
    let signed: bool = s.len() > 0 && (s[0] == '+' || s[0] == '-');
    let from: usize = if signed {
        1
    } else {
        0
    };
    let body = part(s, from, s.len());
    proof {
        if signed {
            assert(body@ =~= s@.skip(1));
        } else {
            assert(body@ =~= s@);
        }
    }
    let low = to_lower(&body);
    if is_text(&low, "nan") {
        return "NaN".to_owned();
    }
    let mut text: Vec<char> = Vec::new();
    if signed && s[0] == '-' {
        text.push('-');
    }
    let ghost sign = text@;
    if is_text(&low, "inf") || is_text(&low, "infinity") {
        let mut word = chars_of("inf");
        text.append(&mut word);
    } else if let Some((digits, point)) = split_numeral(&body) {
        let len: usize = digits.len();
        assert(digits@.len() == len);
        proof {
            let n = numeral_of(body@)->0;
            lemma_far_texts(digits@, point as int, n.whole.len() + n.exponent);
        }
        push_plain(&mut text, &digits, point);
    }
    assert(sign =~= if s@.len() > 0 && s@[0] == '-' {
        seq!['-']
    } else {
        Seq::empty()
    });
    string_of(&text)
}

/// A rounded quotient is the nearest whole number, and of two as near the even one.
pub proof fn law_rounded_is_the_nearest(n: nat, d: nat)
    requires
        d > 0,
    ensures
        ({
            let q = rounded(n, d);
            &&& 2 * n <= (2 * q + 1) * d
            &&& (2 * q - 1) * d <= 2 * n
            &&& 2 * n == (2 * q + 1) * d || 2 * n == (2 * q - 1) * d ==> q % 2 == 0
        }),
{
    let q = (n / d) as int;
    let r = (n % d) as int;
    assert(n == q * d + r && 0 <= r < d) by (nonlinear_arith)
        requires
            d > 0,
            q == n / d,
            r == n % d,
    ;
    assert((2 * q + 1) * d == 2 * (q * d) + d) by (nonlinear_arith);
    assert((2 * q - 1) * d == 2 * (q * d) - d) by (nonlinear_arith);
    assert((2 * (q + 1) + 1) * d == 2 * (q * d) + 3 * d) by (nonlinear_arith);
    assert((2 * (q + 1) - 1) * d == 2 * (q * d) + d) by (nonlinear_arith);
}

/// Digits after digits.
proof fn lemma_number_concat(a: Seq<char>, b: Seq<char>)
    requires
        all_digits(b),
    ensures
        number_of(a + b) == number_of(a) * pow10(b.len()) + number_of(b),
    decreases b.len(),
{
    if b.len() == 0 {
        assert(a + b =~= a);
        assert(number_of(a) * 1 == number_of(a));
    } else {
        let c = b.drop_last();
        assert(all_digits(c));
        lemma_number_concat(a, c);
        assert((a + b).drop_last() =~= a + c);
        assert((a + b).last() == b.last());
        lemma_pow10(c.len());
        assert(number_of(a) * (10 * pow10(c.len())) == 10 * (number_of(a) * pow10(c.len())))
            by (nonlinear_arith);
    }
}

/// A number with up to six digits after the point is read as so many millionths,
/// cut to what a setting holds, with the sign before it; without a point, as so
/// many whole ones.
pub proof fn law_numbers_are_read(d: Seq<char>, f: Seq<char>)
    requires
        d.len() > 0,
        f.len() <= 6,
        all_digits(d),
        all_digits(f),
    ensures
        ({
            let m = number_of(d) * 1_000_000 + number_of(f) * pow10((6 - f.len()) as nat);
            let cut = if m <= 9_223_372_036_854_775_807 {
                m as int
            } else {
                9_223_372_036_854_775_807
            };
            &&& reading_of(d + seq!['.'] + f) == Some(Reading::Millionths(cut as i64))
            &&& reading_of(seq!['-'] + (d + seq!['.'] + f)) == Some(
                Reading::Millionths((0 - cut) as i64),
            )
            &&& f.len() == 0 ==> reading_of(d) == Some(Reading::Millionths(cut as i64))
        }),
{
    let body = d + seq!['.'] + f;
    let minus = seq!['-'] + body;
    let point = seq!['.'] + f;
    assert(is_digit(d[0]));
    assert(body =~= d + point);
    lemma_leading_digits(d, point);
    assert(body.take(d.len() as int) =~= d);
    assert(body.skip(d.len() as int) =~= point);
    assert(point.skip(1) =~= f);
    lemma_leading_digits(f, Seq::empty());
    assert(f + Seq::<char>::empty() =~= f);
    assert(f.take(f.len() as int) =~= f);
    assert(f.skip(f.len() as int).len() == 0);
    assert(minus.skip(1) =~= body);
    lemma_is_no_word(body);
    lemma_is_no_word(d);
    lemma_number_concat(d, f);
    lemma_leading_digits(d, Seq::empty());
    assert(d + Seq::<char>::empty() =~= d);
    assert(d.take(d.len() as int) =~= d);
    assert(d.skip(d.len() as int).len() == 0);
    let k = (6 - f.len()) as nat;
    let (a, b) = (number_of(d), number_of(f));
    lemma_six(f.len());
    assert((a * pow10(f.len()) + b) * pow10(k) == a * 1_000_000 + b * pow10(k)) by (nonlinear_arith)
        requires
            pow10(f.len()) * pow10(k) == 1_000_000,
    ;
    assert(numeral_of(body) == Some(Numeral { whole: d, fraction: f, exponent: 0 }));
    assert(placed(d + f, d.len() as int + 6) == number_of(d + f) * pow10(k));
    if f.len() == 0 {
        let none = Seq::<char>::empty();
        assert(f =~= none);
        assert(numeral_of(d) == Some(Numeral { whole: d, fraction: none, exponent: 0 }));
        assert(d + none =~= d);
    }
}

/// Two parts of six places.
proof fn lemma_six(n: nat)
    requires
        n <= 6,
    ensures
        pow10(n) * pow10((6 - n) as nat) == 1_000_000,
{
    reveal_with_fuel(pow10, 8);
    assert(pow10(0) == 1 && pow10(1) == 10 && pow10(2) == 100 && pow10(3) == 1_000);
    assert(pow10(4) == 10_000 && pow10(5) == 100_000 && pow10(6) == 1_000_000);
    if n == 0 {
        assert(1nat * 1_000_000nat == 1_000_000);
    } else if n == 1 {
        assert(10nat * 100_000nat == 1_000_000);
    } else if n == 2 {
        assert(100nat * 10_000nat == 1_000_000);
    } else if n == 3 {
        assert(1_000nat * 1_000nat == 1_000_000);
    } else if n == 4 {
        assert(10_000nat * 100nat == 1_000_000);
    } else if n == 5 {
        assert(100_000nat * 10nat == 1_000_000);
    } else {
        assert(n == 6);
        assert(1_000_000nat * 1nat == 1_000_000);
    }
}

/// What starts with a digit is none of the words.
proof fn lemma_is_no_word(s: Seq<char>)
    requires
        s.len() > 0,
        is_digit(s[0]),
    ensures
        lowered(s) != "nan"@,
        lowered(s) != "inf"@,
        lowered(s) != "infinity"@,
        unsigned_part(s) == s,
{
    reveal_strlit("nan");
    reveal_strlit("inf");
    reveal_strlit("infinity");
    assert(lowered(s)[0] == s[0]);
    assert("nan"@[0] == 'n' && "inf"@[0] == 'i' && "infinity"@[0] == 'i');
}

} // verus!
