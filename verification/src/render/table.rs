//! Tables with aligned columns.
use vstd::prelude::*;
use vstd::string::*;
use super::theme::{painted, repeated, Theme, DIM};
use super::width::{ends_in_escape, lemma_visible_concat, visible, visible_width};

verus! {

/// The side at which a column's cells stand.
#[derive(Debug, Clone, Copy, PartialEq, Eq, Structural)]
pub enum Align {
    Left,
    Right,
}

/// The characters of each cell.
pub open spec fn cell_views(cells: Seq<String>) -> Seq<Seq<char>> {
    cells.map_values(|c: String| c@)
}

/// The characters of each cell of each row.
pub open spec fn row_views(rows: Seq<Vec<String>>) -> Seq<Seq<Seq<char>>> {
    rows.map_values(|r: Vec<String>| cell_views(r@))
}

/// The larger of two numbers.
pub open spec fn larger(a: nat, b: nat) -> nat {
    if a >= b {
        a
    } else {
        b
    }
}

/// The columns of the widest cell in place `i`.
pub open spec fn column_width(header: Seq<char>, rows: Seq<Seq<Seq<char>>>, i: int) -> nat
    decreases rows.len(),
{
    if rows.len() == 0 {
        visible(header, false)
    } else {
        let rest = column_width(header, rows.drop_last(), i);
        if i < rows.last().len() {
            larger(rest, visible(rows.last()[i], false))
        } else {
            rest
        }
    }
}

/// The widths of all columns.
pub open spec fn column_widths(headers: Seq<Seq<char>>, rows: Seq<Seq<Seq<char>>>) -> Seq<nat> {
    Seq::new(headers.len(), |i: int| column_width(headers[i], rows, i))
}

/// The spaces that a cell lacks.
pub open spec fn padding(width: nat, cell: Seq<char>) -> nat {
    let w = visible(cell, false);
    if width >= w {
        (width - w) as nat
    } else {
        0
    }
}

/// A cell in its column. The last cell has no spaces after it.
pub open spec fn cell_text(cell: Seq<char>, width: nat, align: Align, last: bool) -> Seq<char> {
    let spaces = repeated(' ', padding(width, cell));
    if align == Align::Right {
        spaces + cell
    } else if last {
        cell
    } else {
        cell + spaces
    }
}

/// The first `n` cells of a row, with two spaces between each two.
pub open spec fn row_text(
    cells: Seq<Seq<char>>,
    widths: Seq<nat>,
    aligns: Seq<Align>,
    n: nat,
) -> Seq<char>
    decreases n,
{
    if n == 0 {
        Seq::empty()
    } else {
        let i = n - 1;
        let before = row_text(cells, widths, aligns, i as nat);
        let gap = if i > 0 {
            "  "@
        } else {
            ""@
        };
        before + gap + cell_text(cells[i], widths[i], aligns[i], n == cells.len())
    }
}

/// The text with spaces after it, to at least six characters.
pub open spec fn label_text(label: Seq<char>) -> Seq<char> {
    if label.len() >= 6 {
        label
    } else {
        label + repeated(' ', (6 - label.len()) as nat)
    }
}

/// The first `n` rows, each on a line of its own.
pub open spec fn body_text(
    rows: Seq<Seq<Seq<char>>>,
    widths: Seq<nat>,
    aligns: Seq<Align>,
    n: nat,
) -> Seq<char>
    decreases n,
{
    if n == 0 {
        Seq::empty()
    } else {
        let row = rows[n - 1];
        body_text(rows, widths, aligns, (n - 1) as nat) + label_text(""@) + row_text(
            row,
            widths,
            aligns,
            row.len(),
        ) + "\n"@
    }
}

/// A table: a line with the label and the headers, and a line for each row;
/// nothing without rows.
pub open spec fn table_text(
    label: Seq<char>,
    headers: Seq<Seq<char>>,
    aligns: Seq<Align>,
    rows: Seq<Seq<Seq<char>>>,
    theme: Theme,
) -> Seq<char> {
    if rows.len() == 0 {
        Seq::empty()
    } else {
        let widths = column_widths(headers, rows);
        label_text(label) + painted(
            theme,
            DIM@,
            row_text(headers, widths, aligns, headers.len()),
        ) + "\n"@ + body_text(rows, widths, aligns, rows.len())
    }
}

/// The numbers of a list.
pub open spec fn nats(s: Seq<u128>) -> Seq<nat> {
    s.map_values(|w: u128| w as nat)
}

/// A character `n` times, at the end of a text.
fn push_repeated(out: &mut String, c: char, n: u128)
    ensures
        final(out)@ == old(out)@ + repeated(c, n as nat),
{
    let mut i: u128 = 0;
    while i < n
        invariant
            i <= n,
            out@ =~= old(out)@ + repeated(c, i as nat),
        decreases n - i,
    {
        out.push(c);
        i += 1;
    }
}

/// The widths of all columns.
fn measure(headers: &Vec<String>, rows: &Vec<Vec<String>>) -> (r: Vec<u128>)
    ensures
        r@.len() == headers@.len(),
        nats(r@) == column_widths(cell_views(headers@), row_views(rows@)),
{
    let mut widths: Vec<u128> = Vec::new();
    let ghost all = row_views(rows@);
    let ghost heads = cell_views(headers@);
    for i in 0..headers.len()
        invariant
            all == row_views(rows@),
            heads == cell_views(headers@),
            widths@.len() == i,
            nats(widths@) =~= column_widths(heads, all).take(i as int),
    {
        let mut w: u128 = visible_width(headers[i].as_str());
        assert(heads[i as int] == headers@[i as int]@);
        for r in 0..rows.len()
            invariant
                all == row_views(rows@),
                i < headers@.len(),
                heads[i as int] == headers@[i as int]@,
                w == column_width(heads[i as int], all.take(r as int), i as int),
        {
            assert(all.take(r as int + 1).drop_last() =~= all.take(r as int));
            assert(all[r as int] == cell_views(rows@[r as int]@));
            if i < rows[r].len() {
                let v: u128 = visible_width(rows[r][i].as_str());
                assert(all[r as int][i as int] == rows@[r as int]@[i as int]@);
                if v > w {
                    w = v;
                }
            }
        }
        assert(all.take(rows.len() as int) =~= all);
        let ghost before = widths@;
        widths.push(w);
        proof {
            assert(column_widths(heads, all)[i as int] == w);
            assert(nats(widths@) =~= nats(before).push(w as nat));
        }
    }
    assert(nats(widths@) =~= column_widths(heads, all));
    widths
}

/// A row of cells.
fn render_row(cells: &Vec<String>, widths: &Vec<u128>, aligns: &Vec<Align>) -> (r: String)
    requires
        cells@.len() <= widths@.len(),
        cells@.len() <= aligns@.len(),
    ensures
        r@ == row_text(cell_views(cells@), nats(widths@), aligns@, cells@.len()),
{
    let mut line = String::new();
    let ghost views = cell_views(cells@);
    for i in 0..cells.len()
        invariant
            cells@.len() <= widths@.len(),
            cells@.len() <= aligns@.len(),
            views == cell_views(cells@),
            line@ == row_text(views, nats(widths@), aligns@, i as nat),
    {
        let cell = cells[i].as_str();
        assert(views[i as int] == cell@);
        assert(nats(widths@)[i as int] == widths@[i as int]);
        if i > 0 {
            line.append("  ");
        } else {
            line.append("");
        }
        let w: u128 = visible_width(cell);
        let pad: u128 = if widths[i] >= w {
            widths[i] - w
        } else {
            0
        };
        let mut piece = String::new();
        match aligns[i] {
            Align::Right => {
                push_repeated(&mut piece, ' ', pad);
                piece.append(cell);
                assert(piece@ =~= repeated(' ', pad as nat) + cell@);
            },
            Align::Left => {
                piece = cell.to_owned();
                if i + 1 < cells.len() {
                    push_repeated(&mut piece, ' ', pad);
                }
            },
        }
        line.append(piece.as_str());
    }
    line
}

/// Writes the label and spaces after it.
fn push_label(out: &mut String, label: &str)
    ensures
        final(out)@ == old(out)@ + label_text(label@),
{
    let n: usize = label.unicode_len();
    out.append(label);
    if n < 6 {
        push_repeated(out, ' ', (6 - n) as u128);
    }
    assert(out@ =~= old(out)@ + label_text(label@));
}

/// Writes a table.
pub fn write_table(
    out: &mut String,
    label: &str,
    headers: &Vec<String>,
    aligns: &Vec<Align>,
    rows: &Vec<Vec<String>>,
    theme: Theme,
)
    requires
        rows@.len() > 0 ==> headers@.len() <= aligns@.len(),
        forall|i: int| 0 <= i < rows@.len() ==> (#[trigger] rows@[i])@.len() <= headers@.len(),
    ensures
        final(out)@ == old(out)@ + table_text(
            label@,
            cell_views(headers@),
            aligns@,
            row_views(rows@),
            theme,
        ),
{
    if rows.len() == 0 {
        assert(out@ =~= old(out)@ + Seq::empty());
        return;
    }
    let widths = measure(headers, rows);
    let ghost start = out@;
    let ghost heads = cell_views(headers@);
    let ghost all = row_views(rows@);
    let ghost wide = nats(widths@);
    let head = render_row(headers, &widths, aligns);
    push_label(out, label);
    out.append(theme.paint(DIM, head.as_str()).as_str());
    out.append("\n");
    let ghost top = label_text(label@) + painted(
        theme,
        DIM@,
        row_text(heads, wide, aligns@, heads.len()),
    ) + "\n"@;
    assert(out@ =~= start + top);
    assert(start + top =~= start + top + body_text(all, wide, aligns@, 0));
    for i in 0..rows.len()
        invariant
            headers@.len() <= aligns@.len(),
            widths@.len() == headers@.len(),
            all == row_views(rows@),
            wide == nats(widths@),
            forall|j: int| 0 <= j < rows@.len() ==> (#[trigger] rows@[j])@.len() <= headers@.len(),
            out@ == start + top + body_text(all, wide, aligns@, i as nat),
    {
        let ghost before = out@;
        let line = render_row(&rows[i], &widths, aligns);
        assert(all[i as int] == cell_views(rows@[i as int]@));
        push_label(out, "");
        out.append(line.as_str());
        out.append("\n");
        assert(out@ =~= start + top + (body_text(all, wide, aligns@, i as nat) + label_text(""@)
            + line@ + "\n"@));
    }
    assert(out@ =~= start + (top + body_text(all, wide, aligns@, all.len())));
}

/// Spaces take a column each, and are in no escape sequence.
proof fn lemma_spaces(n: nat)
    ensures
        visible(repeated(' ', n), false) == n,
        !ends_in_escape(repeated(' ', n), false),
    decreases n,
{
    let s = repeated(' ', n);
    if n > 0 {
        assert(s.drop_first() =~= repeated(' ', (n - 1) as nat));
        assert(s[0] == ' ');
        lemma_spaces((n - 1) as nat);
    }
}

/// Whether a cell ends outside of any escape sequence.
pub open spec fn complete(cell: Seq<char>) -> bool {
    !ends_in_escape(cell, false)
}

/// A column is as wide as the widest cell in it.
proof fn lemma_width_covers(header: Seq<char>, rows: Seq<Seq<Seq<char>>>, i: int, r: int)
    requires
        0 <= r < rows.len(),
        0 <= i < rows[r].len(),
    ensures
        visible(rows[r][i], false) <= column_width(header, rows, i),
    decreases rows.len(),
{
    if r < rows.len() - 1 {
        lemma_width_covers(header, rows.drop_last(), i, r);
    }
}

/// The columns of the first `n` widths, with two spaces between each two.
pub open spec fn total_width(widths: Seq<nat>, n: nat) -> nat
    decreases n,
{
    if n == 0 {
        0
    } else {
        total_width(widths, (n - 1) as nat) + widths[n - 1] + if n > 1 {
            2nat
        } else {
            0
        }
    }
}

/// A cell fills its column, unless it is the last one and stands at the left.
proof fn lemma_cell_width(cell: Seq<char>, width: nat, align: Align, last: bool)
    requires
        complete(cell),
        visible(cell, false) <= width,
        !last || align == Align::Right,
    ensures
        visible(cell_text(cell, width, align, last), false) == width,
        complete(cell_text(cell, width, align, last)),
{
    let spaces = repeated(' ', padding(width, cell));
    lemma_spaces(padding(width, cell));
    lemma_visible_concat(spaces, cell, false);
    lemma_visible_concat(cell, spaces, false);
}

/// The first cells of a row fill their columns.
proof fn lemma_row_width(
    cells: Seq<Seq<char>>,
    widths: Seq<nat>,
    aligns: Seq<Align>,
    n: nat,
)
    requires
        n <= cells.len(),
        cells.len() == widths.len(),
        cells.len() == aligns.len(),
        cells.len() > 0,
        aligns.last() == Align::Right,
        forall|i: int|
            0 <= i < cells.len() ==> complete(#[trigger] cells[i]) && visible(cells[i], false)
                <= widths[i],
    ensures
        visible(row_text(cells, widths, aligns, n), false) == total_width(widths, n),
        complete(row_text(cells, widths, aligns, n)),
    decreases n,
{
    if n > 0 {
        let i = n - 1;
        lemma_row_width(cells, widths, aligns, i as nat);
        let before = row_text(cells, widths, aligns, i as nat);
        let gap = if i > 0 {
            "  "@
        } else {
            ""@
        };
        reveal_strlit("  ");
        reveal_strlit("");
        assert("  "@ =~= repeated(' ', 2));
        assert(""@ =~= repeated(' ', 0));
        lemma_spaces(2);
        lemma_spaces(0);
        let cell = cell_text(cells[i], widths[i], aligns[i], n == cells.len());
        assert(complete(cells[i]));
        if n == cells.len() {
            assert(aligns[i] == aligns.last());
        }
        lemma_cell_width(cells[i], widths[i], aligns[i], n == cells.len());
        lemma_visible_concat(before, gap, false);
        lemma_visible_concat(before + gap, cell, false);
    }
}

/// The rows of a table whose last column stands at the right all end at the same
/// column, whatever colours and wide characters they hold.
pub proof fn law_rows_end_at_one_column(
    headers: Seq<Seq<char>>,
    rows: Seq<Seq<Seq<char>>>,
    aligns: Seq<Align>,
    r: int,
)
    requires
        0 <= r < rows.len(),
        headers.len() > 0,
        headers.len() == aligns.len(),
        rows[r].len() == headers.len(),
        aligns.last() == Align::Right,
        forall|i: int| 0 <= i < rows[r].len() ==> complete(#[trigger] rows[r][i]),
    ensures
        visible(row_text(rows[r], column_widths(headers, rows), aligns, rows[r].len()), false)
            == total_width(column_widths(headers, rows), headers.len()),
{
    let widths = column_widths(headers, rows);
    assert forall|i: int| 0 <= i < rows[r].len() implies complete(#[trigger] rows[r][i])
        && visible(rows[r][i], false) <= widths[i] by {
        lemma_width_covers(headers[i], rows, i, r);
    }
    lemma_row_width(rows[r], widths, aligns, rows[r].len());
}

} // verus!
