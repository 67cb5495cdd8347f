//! How many columns text takes on a terminal.
use vstd::prelude::*;
use vstd::string::*;
use unicode_width::{UnicodeWidthChar, UnicodeWidthStr};
use super::theme::{painted, Theme};
use crate::text::{chars_of, string_of};

verus! {

/// The columns that `unicode_width` gives a character from U+00A0 on.
pub uninterp spec fn wide_columns(c: char) -> u8;

/// The columns of a character. Printable ASCII takes one, a control character
/// has none.
pub open spec fn columns_of(c: char) -> nat {
    if ' ' > c {
        0
    } else if '\u{7f}' > c {
        1
    } else if '\u{a0}' > c {
        0
    } else {
        wide_columns(c) as nat
    }
}

/// The columns of a character by `unicode_width::UnicodeWidthChar::width`: one
/// for printable ASCII, nothing for a control character, and for every other
/// character a number of eight bits that depends on it alone.
#[verifier::external_body]
fn char_width(c: char) -> (r: Option<usize>)
    ensures
        ' ' > c || ('\u{7f}' <= c && '\u{a0}' > c) ==> r is None,
        ' ' <= c && '\u{7f}' > c ==> r == Some(1usize),
        '\u{a0}' <= c ==> r == Some(wide_columns(c) as usize),
{
    c.width()
}

/// The columns that `unicode_width` gives a text.
pub uninterp spec fn text_columns(s: Seq<char>) -> usize;

/// The columns of a text by `unicode_width::UnicodeWidthStr::width`, which takes
/// account of characters that join. They depend on the text alone.
#[verifier::external_body]
fn text_width(s: &str) -> (r: usize)
    ensures
        r == text_columns(s@),
{
    s.width()
}

/// The columns of a character; none for a control character.
fn columns(c: char) -> (r: u128)
    ensures
        r == columns_of(c),
        r <= 255,
{
    match char_width(c) {
        Some(w) => w as u128,
        None => 0,
    }
}

/// Whether a character is an ASCII letter.
pub open spec fn is_letter(c: char) -> bool {
    ('a' <= c <= 'z') || ('A' <= c <= 'Z')
}

/// The columns of a text without its escape sequences, each of which lasts up to
/// its first letter. `escape` tells whether the text starts inside one.
pub open spec fn visible(s: Seq<char>, escape: bool) -> nat
    decreases s.len(),
{
    if s.len() == 0 {
        0
    } else if escape {
        visible(s.drop_first(), !is_letter(s[0]))
    } else if s[0] == '\u{1b}' {
        visible(s.drop_first(), true)
    } else {
        columns_of(s[0]) + visible(s.drop_first(), false)
    }
}

/// The columns of a text without its escape sequences.
pub fn visible_width(s: &str) -> (r: u128)
    ensures
        r == visible(s@, false),
{
    let chars = chars_of(s);
    let mut width: u128 = 0;
    let mut escape: bool = false;
    assert(s@.skip(0) =~= s@);
    for i in 0..chars.len()
        invariant
            chars@ == s@,
            width <= 255 * i,
            visible(s@, false) == width + visible(s@.skip(i as int), escape),
    {
        let c: char = chars[i];
        assert(s@.skip(i as int).drop_first() =~= s@.skip(i as int + 1));
        if escape {
            escape = !((c >= 'a' && c <= 'z') || (c >= 'A' && c <= 'Z'));
        } else if c == '\u{1b}' {
            escape = true;
        } else {
            width = width + columns(c);
        }
    }
    assert(s@.skip(chars.len() as int) =~= Seq::empty());
    width
}

/// The columns of the characters added up, one by one.
pub open spec fn sum_columns(s: Seq<char>) -> nat
    decreases s.len(),
{
    if s.len() == 0 {
        0
    } else {
        sum_columns(s.drop_last()) + columns_of(s.last())
    }
}

/// How many of the first characters fit into `budget` columns.
pub open spec fn fitting_prefix(s: Seq<char>, budget: nat, k: nat) -> nat
    decreases s.len() - k,
{
    if k >= s.len() || sum_columns(s.take(k as int)) + columns_of(s[k as int]) > budget {
        k
    } else {
        fitting_prefix(s, budget, k + 1)
    }
}

/// The text cut to `max` columns, with an ellipsis where it was cut.
pub open spec fn truncated(s: Seq<char>, max: usize) -> Seq<char> {
    if text_columns(s) <= max {
        s
    } else {
        let budget: nat = if max == 0 {
            0
        } else {
            (max - 1) as nat
        };
        s.take(fitting_prefix(s, budget, 0) as int).push('…')
    }
}

/// Cuts a text to `max` columns, with an ellipsis where it was cut.
pub fn truncate_width(s: &str, max: usize) -> (r: String)
    ensures
        r@ == truncated(s@, max),
{
    if text_width(s) <= max {
        return s.to_owned();
    }
    let budget: u128 = if max == 0 {
        0
    } else {
        max as u128 - 1
    };
    let chars = chars_of(s);
    let mut kept: Vec<char> = Vec::new();
    let mut used: u128 = 0;
    let mut i: usize = 0;
    assert(s@.take(0) =~= Seq::empty());
    while i < chars.len() && used + columns(chars[i]) <= budget
        invariant
            i <= chars@.len(),
            chars@ == s@,
            kept@ =~= s@.take(i as int),
            used == sum_columns(s@.take(i as int)),
            used <= budget,
            budget <= usize::MAX,
            fitting_prefix(s@, budget as nat, 0) == fitting_prefix(s@, budget as nat, i as nat),
        decreases chars@.len() - i,
    {
        assert(s@.take(i as int + 1).drop_last() =~= s@.take(i as int));
        used = used + columns(chars[i]);
        kept.push(chars[i]);
        i += 1;
    }
    kept.push('…');
    string_of(&kept)
}

/// The characters that fit take no more columns than there are.
proof fn lemma_fitting(s: Seq<char>, budget: nat, k: nat)
    requires
        k <= s.len(),
        sum_columns(s.take(k as int)) <= budget,
    ensures
        k <= fitting_prefix(s, budget, k) <= s.len(),
        sum_columns(s.take(fitting_prefix(s, budget, k) as int)) <= budget,
    decreases s.len() - k,
{
    if k < s.len() && sum_columns(s.take(k as int)) + columns_of(s[k as int]) <= budget {
        assert(s.take(k as int + 1).drop_last() =~= s.take(k as int));
        lemma_fitting(s, budget, k + 1);
    }
}

/// What is kept of a text that is cut leaves a column for the ellipsis, and the
/// whole text is kept where it fits.
pub proof fn law_cut_text_leaves_room(s: Seq<char>, max: usize)
    requires
        max >= 1,
    ensures
        text_columns(s) <= max ==> truncated(s, max) == s,
        text_columns(s) > max ==> {
            &&& truncated(s, max).last() == '…'
            &&& sum_columns(truncated(s, max).drop_last()) <= max - 1
            &&& truncated(s, max).len() - 1 <= s.len()
            &&& truncated(s, max).drop_last() == s.take(truncated(s, max).len() - 1)
        },
{
    if text_columns(s) > max {
        assert(s.take(0) =~= Seq::empty());
        lemma_fitting(s, (max - 1) as nat, 0);
        let k = fitting_prefix(s, (max - 1) as nat, 0);
        assert(truncated(s, max).drop_last() =~= s.take(k as int));
    }
}

/// Whether a text that starts inside an escape sequence or outside one ends
/// inside one.
pub open spec fn ends_in_escape(s: Seq<char>, escape: bool) -> bool
    decreases s.len(),
{
    if s.len() == 0 {
        escape
    } else if escape {
        ends_in_escape(s.drop_first(), !is_letter(s[0]))
    } else {
        ends_in_escape(s.drop_first(), s[0] == '\u{1b}')
    }
}

/// The columns of two texts one after the other.
pub proof fn lemma_visible_concat(a: Seq<char>, b: Seq<char>, escape: bool)
    ensures
        visible(a + b, escape) == visible(a, escape) + visible(b, ends_in_escape(a, escape)),
        ends_in_escape(a + b, escape) == ends_in_escape(b, ends_in_escape(a, escape)),
    decreases a.len(),
{
    if a.len() == 0 {
        assert(a + b =~= b);
    } else {
        assert((a + b).drop_first() =~= a.drop_first() + b);
        if escape {
            lemma_visible_concat(a.drop_first(), b, !is_letter(a[0]));
        } else if a[0] == '\u{1b}' {
            lemma_visible_concat(a.drop_first(), b, true);
        } else {
            lemma_visible_concat(a.drop_first(), b, false);
        }
    }
}

/// Inside an escape sequence a text without letters takes no columns and does
/// not end it.
proof fn lemma_no_letters(s: Seq<char>)
    requires
        forall|i: int| 0 <= i < s.len() ==> !is_letter(#[trigger] s[i]),
    ensures
        visible(s, true) == 0,
        ends_in_escape(s, true),
    decreases s.len(),
{
    if s.len() > 0 {
        assert(!is_letter(s[0]));
        assert forall|i: int| 0 <= i < s.drop_first().len() implies !is_letter(
            #[trigger] s.drop_first()[i],
        ) by {
            assert(s.drop_first()[i] == s[i + 1]);
        }
        lemma_no_letters(s.drop_first());
    }
}

/// Colours take no columns: a painted text is as wide as it is unpainted.
pub proof fn law_colours_take_no_columns(theme: Theme, code: Seq<char>, text: Seq<char>)
    requires
        forall|i: int| 0 <= i < code.len() ==> !is_letter(#[trigger] code[i]),
    ensures
        visible(painted(theme, code, text), false) == visible(text, false),
{
    if theme.enabled && text.len() > 0 {
        reveal_strlit("\u{1b}[");
        reveal_strlit("m");
        reveal_strlit("\u{1b}[0m");
        reveal_with_fuel(visible, 6);
        reveal_with_fuel(ends_in_escape, 6);
        let start = "\u{1b}["@;
        let stop = "\u{1b}[0m"@;
        assert(start =~= seq!['\u{1b}', '[']);
        assert(start.drop_first() =~= seq!['[']);
        assert(start.drop_first().drop_first() =~= Seq::empty());
        assert("m"@ =~= seq!['m']);
        assert("m"@.drop_first() =~= Seq::empty());
        assert(stop =~= seq!['\u{1b}', '[', '0', 'm']);
        assert(stop.drop_first() =~= seq!['[', '0', 'm']);
        assert(stop.drop_first().drop_first() =~= seq!['0', 'm']);
        assert(stop.drop_first().drop_first().drop_first() =~= seq!['m']);
        assert(stop.drop_first().drop_first().drop_first().drop_first() =~= Seq::empty());
        assert(visible(start, false) == 0 && ends_in_escape(start, false));
        assert(visible("m"@, true) == 0 && !ends_in_escape("m"@, true));
        assert(visible(stop, true) == 0 && visible(stop, false) == 0);
        lemma_no_letters(code);
        lemma_visible_concat(start, code, false);
        lemma_visible_concat(start + code, "m"@, false);
        lemma_visible_concat(start + code + "m"@, text, false);
        lemma_visible_concat(start + code + "m"@ + text, stop, false);
    }
}

} // verus!
