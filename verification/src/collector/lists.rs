//! Which property lists can be read without harm.
//!
//! A reader of property lists gives up on a date that leaves the calendar, and
//! whoever walks a list needs room for each level of it. Both show in the bytes.
use vstd::prelude::*;
use vstd::string::*;
use crate::text::chars_of;

verus! {

/// How many levels of arrays and dictionaries a list may have.
pub const MAX_LEVELS: usize = 128;

/// Whether the characters stand in the bytes from place `i` on.
pub open spec fn stands(bytes: Seq<u8>, i: int, word: Seq<char>) -> bool {
    &&& 0 <= i
    &&& i + word.len() <= bytes.len()
    &&& forall|j: int| 0 <= j < word.len() ==> bytes[i + j] as char == #[trigger] word[j]
}

fn finds(bytes: &Vec<u8>, i: usize, word: &Vec<char>) -> (r: bool)
    ensures
        r == stands(bytes@, i as int, word@),
{
    let n: usize = bytes.len();
    if i > n || word.len() > n - i {
        return false;
    }
    for j in 0..word.len()
        invariant
            i + word@.len() <= n == bytes@.len(),
            forall|k: int| 0 <= k < j ==> bytes@[i + k] as char == #[trigger] word@[k],
    {
        if bytes[i + j] as char != word[j] {
            assert(bytes@[i + j] as char != word@[j as int]);
            return false;
        }
    }
    true
}

/// Whether the name of an element ends before place `i`.
pub open spec fn name_ends(bytes: Seq<u8>, i: int) -> bool {
    i < bytes.len() && (bytes[i] == 0x20 || bytes[i] == 0x09 || bytes[i] == 0x0a || bytes[i] == 0x0d
        || bytes[i] == 0x3e || bytes[i] == 0x2f)
}

/// Whether an element of that name may start at place `i`: after a `<`, or after
/// the `:` of a prefix.
pub open spec fn may_open(bytes: Seq<u8>, i: int, name: Seq<char>) -> bool {
    &&& bytes[i] == 0x3c || bytes[i] == 0x3a
    &&& stands(bytes, i + 1, name)
    &&& name_ends(bytes, i + 1 + name.len())
}

fn opens(bytes: &Vec<u8>, i: usize, name: &Vec<char>) -> (r: bool)
    requires
        i < bytes@.len(),
    ensures
        r == may_open(bytes@, i as int, name@),
{
    let n: usize = bytes.len();
    if (bytes[i] != 0x3c && bytes[i] != 0x3a) || !finds(bytes, i + 1, name) {
        return false;
    }
    let end: usize = i + 1 + name.len();
    end < n && (bytes[end] == 0x20 || bytes[end] == 0x09 || bytes[end] == 0x0a
        || bytes[end] == 0x0d || bytes[end] == 0x3e || bytes[end] == 0x2f)
}

/// The first year whose dates every system can count.
pub const FIRST_YEAR: u32 = 1602;

/// The last year whose dates stay within four digits in every time zone.
pub const LAST_YEAR: u32 = 9998;

/// Whether the byte at place `i` is a digit.
pub open spec fn digit_at(bytes: Seq<u8>, i: int) -> bool {
    i < bytes.len() && 0x30 <= bytes[i] <= 0x39
}

/// The number that four digits from place `i` on write.
pub open spec fn year_at(bytes: Seq<u8>, i: int) -> int {
    (bytes[i] - 0x30) * 1000 + (bytes[i + 1] - 0x30) * 100 + (bytes[i + 2] - 0x30) * 10 + (bytes[i
        + 3] - 0x30)
}

/// Whether a date stands at place `i` that starts with a year well within the
/// calendar.
pub open spec fn near_date(bytes: Seq<u8>, i: int) -> bool {
    &&& stands(bytes, i, "<date>"@)
    &&& digit_at(bytes, i + 6)
    &&& digit_at(bytes, i + 7)
    &&& digit_at(bytes, i + 8)
    &&& digit_at(bytes, i + 9)
    &&& FIRST_YEAR <= year_at(bytes, i + 6) <= LAST_YEAR
}

/// Whether a date may start at place `i` whose year is not plainly within the
/// calendar.
pub open spec fn far_date(bytes: Seq<u8>, i: int) -> bool {
    may_open(bytes, i, "date"@) && !near_date(bytes, i)
}

/// Whether every date of the list is near enough.
pub open spec fn dates_are_near(bytes: Seq<u8>) -> bool {
    forall|i: int| 0 <= i < bytes.len() ==> !#[trigger] far_date(bytes, i)
}

/// What is known of the levels after some of the bytes.
#[derive(Debug, Clone, Copy, PartialEq, Eq, Structural)]
pub struct Levels {
    /// No fewer than are open
    pub open: usize,
    /// The most so far
    pub most: usize,
    /// Whether every end tag so far was one
    pub sure: bool,
    /// Between a `<` and the next `>`
    pub in_tag: bool,
}

/// Nothing read yet.
pub open spec fn no_levels() -> Levels {
    Levels { open: 0, most: 0, sure: true, in_tag: false }
}

/// Whether a collection may start at place `i`.
pub open spec fn may_open_level(bytes: Seq<u8>, i: int) -> bool {
    may_open(bytes, i, "array"@) || may_open(bytes, i, "dict"@)
}

/// Whether the collection at place `i` is plainly empty.
pub open spec fn plainly_empty(bytes: Seq<u8>, i: int) -> bool {
    stands(bytes, i, "<array/>"@) || stands(bytes, i, "<dict/>"@)
}

/// Whether an end tag of a collection stands at place `i`.
pub open spec fn closes_level(bytes: Seq<u8>, i: int) -> bool {
    stands(bytes, i, "</array>"@) || stands(bytes, i, "</dict>"@)
}

/// Whether the byte at place `i` leaves it open, in a list that has begun, what is
/// a tag and what only looks like one: a quote in a tag, a `<` in a tag, or the
/// start of a comment, a section of plain text or an instruction.
pub open spec fn may_hide(s: Levels, bytes: Seq<u8>, i: int) -> bool {
    s.most > 0 && {
        ||| s.in_tag && (bytes[i] == 0x22 || bytes[i] == 0x27 || bytes[i] == 0x3c)
        ||| stands(bytes, i, "<!"@)
        ||| stands(bytes, i, "<?"@)
    }
}

/// One more byte. End tags count only while nothing may have hidden a tag.
pub open spec fn level_step(s: Levels, bytes: Seq<u8>, i: int) -> Levels {
    let sure = s.sure && !may_hide(s, bytes, i);
    let in_tag = if bytes[i] == 0x3c {
        true
    } else if bytes[i] == 0x3e {
        false
    } else {
        s.in_tag
    };
    let one_more = (s.open + 1) as usize;
    let open = if may_open_level(bytes, i) && !plainly_empty(bytes, i) {
        one_more
    } else if sure && closes_level(bytes, i) && s.open > 0 {
        (s.open - 1) as usize
    } else {
        s.open
    };
    let most = if may_open_level(bytes, i) && one_more > s.most {
        one_more
    } else {
        s.most
    };
    Levels { open, most, sure, in_tag }
}

/// What is known of the levels after the first `n` bytes.
pub open spec fn levels(bytes: Seq<u8>, n: nat) -> Levels
    decreases n,
{
    if n == 0 {
        no_levels()
    } else {
        level_step(levels(bytes, (n - 1) as nat), bytes, n - 1)
    }
}

/// How many of the first `n` bytes are opening brackets of a list without tags.
pub open spec fn brackets(bytes: Seq<u8>, n: nat) -> nat
    decreases n,
{
    if n == 0 {
        0
    } else {
        brackets(bytes, (n - 1) as nat) + if bytes[n - 1] == 0x28 || bytes[n - 1] == 0x7b {
            1nat
        } else {
            0nat
        }
    }
}

/// Whether the list starts with a whole declaration of XML at its very start, all
/// in ASCII.
pub open spec fn is_declared(bytes: Seq<u8>) -> bool {
    &&& stands(bytes, 0, "<?xml "@)
    &&& exists|k: int| 6 <= k && #[trigger] stands(bytes, k, "?>"@) && ascii_before(bytes, k)
}

/// Whether the bytes before place `k` are ASCII.
pub open spec fn ascii_before(bytes: Seq<u8>, k: int) -> bool {
    forall|j: int| 0 <= j < k && j < bytes.len() ==> #[trigger] bytes[j] < 0x80
}

/// Whether the list can be read without harm: it is not in the binary form, whose
/// parts can stand for each other without measure, its dates are near, and its
/// levels are few. Without a declaration it may be read as one without tags, so
/// its brackets must be few too.
pub open spec fn readable(bytes: Seq<u8>) -> bool {
    &&& !stands(bytes, 0, "bplist00"@)
    &&& dates_are_near(bytes)
    &&& levels(bytes, bytes.len()).most <= MAX_LEVELS
    &&& is_declared(bytes) || brackets(bytes, bytes.len()) <= MAX_LEVELS
}

fn starts_near_date(bytes: &Vec<u8>, i: usize, tag: &Vec<char>) -> (r: bool)
    requires
        tag@ == "<date>"@,
    ensures
        r == near_date(bytes@, i as int),
{
    proof {
        reveal_strlit("<date>");
    }
    let n: usize = bytes.len();
    if !finds(bytes, i, tag) || n - i < 10 {
        return false;
    }
    let (a, b, c, d): (u8, u8, u8, u8) = (bytes[i + 6], bytes[i + 7], bytes[i + 8], bytes[i + 9]);
    if a < 0x30 || a > 0x39 || b < 0x30 || b > 0x39 || c < 0x30 || c > 0x39 || d < 0x30 || d > 0x39 {
        return false;
    }
    let year: u32 = (a - 0x30) as u32 * 1000 + (b - 0x30) as u32 * 100 + (c - 0x30) as u32 * 10 + (d
        - 0x30) as u32;
    FIRST_YEAR <= year && year <= LAST_YEAR
}

fn has_near_dates(bytes: &Vec<u8>) -> (r: bool)
    ensures
        r == dates_are_near(bytes@),
{
    let name = chars_of("date");
    let tag = chars_of("<date>");
    for i in 0..bytes.len()
        invariant
            name@ == "date"@,
            tag@ == "<date>"@,
            forall|j: int| 0 <= j < i ==> !#[trigger] far_date(bytes@, j),
    {
        if opens(bytes, i, &name) && !starts_near_date(bytes, i, &tag) {
            assert(far_date(bytes@, i as int));
            return false;
        }
    }
    true
}

fn count_levels(bytes: &Vec<u8>) -> (r: usize)
    ensures
        r == levels(bytes@, bytes@.len()).most,
{
    let array = chars_of("array");
    let dict = chars_of("dict");
    let empty_array = chars_of("<array/>");
    let empty_dict = chars_of("<dict/>");
    let array_end = chars_of("</array>");
    let dict_end = chars_of("</dict>");
    let bang = chars_of("<!");
    let question = chars_of("<?");
    let mut s = Levels { open: 0, most: 0, sure: true, in_tag: false };
    for i in 0..bytes.len()
        invariant
            array@ == "array"@,
            dict@ == "dict"@,
            empty_array@ == "<array/>"@,
            empty_dict@ == "<dict/>"@,
            array_end@ == "</array>"@,
            dict_end@ == "</dict>"@,
            bang@ == "<!"@,
            question@ == "<?"@,
            s == levels(bytes@, i as nat),
            s.open <= i,
            s.most <= i,
    {
        let b: u8 = bytes[i];
        let hides: bool = s.most > 0 && ((s.in_tag && (b == 0x22 || b == 0x27 || b == 0x3c))
            || finds(bytes, i, &bang) || finds(bytes, i, &question));
        let sure: bool = s.sure && !hides;
        let in_tag: bool = if b == 0x3c {
            true
        } else if b == 0x3e {
            false
        } else {
            s.in_tag
        };
        let level: bool = opens(bytes, i, &array) || opens(bytes, i, &dict);
        let one_more: usize = s.open + 1;
        let open: usize = if level && !(finds(bytes, i, &empty_array) || finds(
            bytes,
            i,
            &empty_dict,
        )) {
            one_more
        } else if sure && (finds(bytes, i, &array_end) || finds(bytes, i, &dict_end)) && s.open
            > 0 {
            s.open - 1
        } else {
            s.open
        };
        let most: usize = if level && one_more > s.most {
            one_more
        } else {
            s.most
        };
        s = Levels { open, most, sure, in_tag };
    }
    s.most
}

fn count_brackets(bytes: &Vec<u8>) -> (r: usize)
    ensures
        r == brackets(bytes@, bytes@.len()),
{
    let mut n: usize = 0;
    for i in 0..bytes.len()
        invariant
            n == brackets(bytes@, i as nat),
            n <= i,
    {
        if bytes[i] == 0x28 || bytes[i] == 0x7b {
            n = n + 1;
        }
    }
    n
}

fn has_declaration(bytes: &Vec<u8>) -> (r: bool)
    ensures
        r == is_declared(bytes@),
{
    let start = chars_of("<?xml ");
    let end = chars_of("?>");
    proof {
        reveal_strlit("<?xml ");
        reveal_strlit("?>");
    }
    if !finds(bytes, 0, &start) {
        return false;
    }
    assert forall|j: int| 0 <= j < 6 implies #[trigger] bytes@[j] < 0x80 by {
        assert(bytes@[0 + j] as char == "<?xml "@[j]);
    }
    for k in 6..bytes.len()
        invariant
            bytes@.len() >= 6,
            start@ == "<?xml "@,
            end@ == "?>"@,
            "?>"@.len() == 2,
            stands(bytes@, 0, "<?xml "@),
            ascii_before(bytes@, k as int),
            forall|j: int| 6 <= j < k ==> !#[trigger] stands(bytes@, j, "?>"@),
    {
        if finds(bytes, k, &end) {
            assert(stands(bytes@, k as int, "?>"@) && ascii_before(bytes@, k as int));
            return true;
        }
        if bytes[k] >= 0x80 {
            assert forall|j: int| 6 <= j && #[trigger] stands(
                bytes@,
                j,
                "?>"@,
            ) implies !ascii_before(bytes@, j) by {
                assert(k < j);
                assert(bytes@[k as int] >= 0x80);
            }
            return false;
        }
    }
    false
}

/// Whether the list can be read without harm.
pub fn is_readable(bytes: &Vec<u8>) -> (r: bool)
    ensures
        r == readable(bytes@),
{
    let binary = chars_of("bplist00");
    !finds(bytes, 0, &binary) && has_near_dates(bytes) && count_levels(bytes) <= MAX_LEVELS && (
    has_declaration(bytes) || count_brackets(bytes) <= MAX_LEVELS)
}

} // verus!
