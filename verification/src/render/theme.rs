//! Colours and gauges.
use vstd::prelude::*;
use vstd::string::*;

verus! {

/// Whether colours are on.
#[derive(Debug, Clone, Copy, PartialEq, Eq, Structural)]
pub struct Theme {
    pub enabled: bool,
}

/// Bold red.
pub const RED_BOLD: &'static str = "1;31";

/// Yellow.
pub const YELLOW: &'static str = "33";

/// Green.
pub const GREEN: &'static str = "32";

/// Dimmed.
pub const DIM: &'static str = "2";

/// The text in a colour, where colours are on and there is a text.
pub open spec fn painted(theme: Theme, code: Seq<char>, text: Seq<char>) -> Seq<char> {
    if theme.enabled && text.len() > 0 {
        "\u{1b}["@ + code + "m"@ + text + "\u{1b}[0m"@
    } else {
        text
    }
}

impl Theme {
    /// No colours.
    pub fn plain() -> (r: Theme)
        ensures
            !r.enabled,
    {
        Theme { enabled: false }
    }

    /// The text in a colour.
    pub fn paint(&self, code: &str, text: &str) -> (r: String)
        ensures
            r@ == painted(*self, code@, text@),
    {
        if self.enabled && !text.is_empty() {
            "\u{1b}[".to_owned().concat(code).concat("m").concat(text).concat("\u{1b}[0m")
        } else {
            text.to_owned()
        }
    }
}

/// The colour of a level, in millionths of a percent.
pub open spec fn color_of(level: int, warn: int, crit: int) -> Seq<char> {
    if level >= crit {
        RED_BOLD@
    } else if level >= warn {
        YELLOW@
    } else {
        GREEN@
    }
}

/// The colour of a level: green below `warn`, yellow below `crit`, then bold red.
pub fn level_color(level: i128, warn: i128, crit: i128) -> (r: &'static str)
    ensures
        r@ == color_of(level as int, warn as int, crit as int),
{
    if level >= crit {
        RED_BOLD
    } else if level >= warn {
        YELLOW
    } else {
        GREEN
    }
}

/// A whole, in millionths of a percent.
pub const WHOLE: i128 = 100_000_000;

/// How many of `width` cells a level fills, rounded to the nearest (a half up);
/// none below zero and all above a hundred percent.
pub open spec fn filled(level: int, width: nat) -> nat {
    if level <= 0 {
        0
    } else if level >= WHOLE {
        width
    } else {
        ((2 * level * width + WHOLE) / (2 * WHOLE)) as nat
    }
}

/// A character `n` times.
pub open spec fn repeated(c: char, n: nat) -> Seq<char> {
    Seq::new(n, |i: int| c)
}

/// A gauge: full cells, then empty ones.
pub open spec fn gauge_text(level: int, width: nat) -> Seq<char> {
    repeated('█', filled(level, width)) + repeated('░', (width - filled(level, width)) as nat)
}

/// A gauge in colours.
pub open spec fn styled_gauge_text(theme: Theme, level: int, width: nat) -> Seq<char> {
    painted(
        theme,
        color_of(level, 60_000_000, 85_000_000),
        repeated('█', filled(level, width)),
    ) + painted(theme, DIM@, repeated('░', (width - filled(level, width)) as nat))
}

/// A level fills no more cells than there are.
pub proof fn lemma_filled(level: int, width: nat)
    ensures
        0 <= filled(level, width) <= width,
{
    if 0 < level < WHOLE {
        assert((2 * level * width + WHOLE) / (2 * WHOLE) <= width) by (nonlinear_arith)
            requires
                0 < level < WHOLE,
                width >= 0,
                WHOLE == 100_000_000,
        ;
        assert(2 * level * width >= 0) by (nonlinear_arith)
            requires
                level > 0,
                width >= 0,
        ;
    }
}

/// How many cells a level fills.
fn cells(level: i128, width: usize) -> (r: usize)
    ensures
        r == filled(level as int, width as nat),
        r <= width,
{
    proof {
        lemma_filled(level as int, width as nat);
    }
    if level <= 0 {
        0
    } else if level >= WHOLE {
        width
    } else {
        assert(2 * level * width <= 2 * 100_000_000 * 0xffff_ffff_ffff_ffff) by (nonlinear_arith)
            requires
                0 < level < 100_000_000,
                0 <= width <= 0xffff_ffff_ffff_ffff,
        ;
        assert(2 * level * width >= 0) by (nonlinear_arith)
            requires
                level > 0,
                width >= 0,
        ;
        ((2 * level * width as i128 + WHOLE) / (2 * WHOLE)) as usize
    }
}

/// A character `n` times.
pub fn repeat(c: char, n: usize) -> (r: String)
    ensures
        r@ == repeated(c, n as nat),
{
    let mut r = String::new();
    for i in 0..n
        invariant
            r@ =~= repeated(c, i as nat),
    {
        r.push(c);
    }
    r
}

/// A gauge for a level in millionths of a percent.
pub fn gauge(level: i128, width: usize) -> (r: String)
    ensures
        r@ == gauge_text(level as int, width as nat),
{
    let n: usize = cells(level, width);
    repeat('█', n).concat(repeat('░', width - n).as_str())
}

/// A gauge with the full cells in the colour of the level and the empty ones
/// dimmed.
pub fn styled_gauge(level: i128, width: usize, theme: Theme) -> (r: String)
    ensures
        r@ == styled_gauge_text(theme, level as int, width as nat),
{
    let n: usize = cells(level, width);
    theme.paint(level_color(level, 60_000_000, 85_000_000), repeat('█', n).as_str()).concat(
        theme.paint(DIM, repeat('░', width - n).as_str()).as_str(),
    )
}

/// A gauge has as many cells as it is wide.
pub proof fn law_gauge_width(level: int, width: nat)
    ensures
        gauge_text(level, width).len() == width,
{
    lemma_filled(level, width);
}

/// Without colours nothing is added to a text.
pub proof fn law_plain_theme_paints_nothing(code: Seq<char>, text: Seq<char>)
    ensures
        painted(Theme { enabled: false }, code, text) == text,
{
}

/// A gauge is full cells and then empty ones. The full ones are the share that the
/// level is of a hundred percent, to the nearest cell: none below zero, all above.
pub proof fn law_gauge_shows_the_level(level: int, width: nat)
    ensures
        ({
            let text = gauge_text(level, width);
            let n = filled(level, width);
            &&& n <= width
            &&& text.len() == width
            &&& forall|i: int| 0 <= i < n ==> #[trigger] text[i] == '█'
            &&& forall|i: int| n <= i < width ==> #[trigger] text[i] == '░'
            &&& level <= 0 ==> n == 0
            &&& level >= 100_000_000 ==> n == width
            &&& 0 <= level <= 100_000_000 ==> (2 * n - 1) * 100_000_000 <= 2 * level * width < (2 * n
                + 1) * 100_000_000
        }),
{
    lemma_filled(level, width);
    let n = filled(level, width) as int;
    if 0 < level < 100_000_000 {
        let a = 2 * level * width;
        assert(a >= 0) by (nonlinear_arith)
            requires
                level > 0,
                width >= 0,
                a == 2 * level * width,
        ;
        assert(n == (a + 100_000_000) / 200_000_000);
    } else if level == 100_000_000 {
        assert(2 * level * width == 2 * n * 100_000_000) by (nonlinear_arith)
            requires
                level == 100_000_000,
                n == width,
        ;
    }
}

} // verus!
