use vstd::prelude::*;

use crate::color::Color;
use crate::display::Pixel;
use crate::escape::Op;

verus! {

/// One of the two colors that a cell carries.
#[derive(Clone, Copy, Debug, PartialEq, Eq, Structural)]
pub enum Layer {
    Fore,
    Back,
}

/// The color of `p` on layer `l`.
pub open spec fn color_of(p: Pixel, l: Layer) -> Color {
    match l {
        Layer::Fore => p.foreground_color,
        Layer::Back => p.background_color,
    }
}

/// The color on layer `l` that the terminal holds after `cells` were printed,
/// starting from `start`: that of the last cell, or `start` if there is none.
pub open spec fn last_color(cells: Seq<Pixel>, l: Layer, start: Color) -> Color {
    if cells.len() == 0 {
        start
    } else {
        color_of(cells.last(), l)
    }
}

/// `op` selects a color on layer `l`.
pub open spec fn selects(op: Op, l: Layer) -> bool {
    match l {
        Layer::Fore => op is Fg,
        Layer::Back => op is Bg,
    }
}

/// How many units of `ops` select a color on layer `l`.
pub open spec fn count_selects(ops: Seq<Op>, l: Layer) -> nat
    decreases ops.len(),
{
    if ops.len() == 0 {
        0
    } else {
        count_selects(ops.drop_last(), l) + if selects(ops.last(), l) {
            1nat
        } else {
            0nat
        }
    }
}

/// How many units of `ops` erase the screen.
pub open spec fn count_erase(ops: Seq<Op>) -> nat
    decreases ops.len(),
{
    if ops.len() == 0 {
        0
    } else {
        count_erase(ops.drop_last()) + if ops.last() is Erase {
            1nat
        } else {
            0nat
        }
    }
}

/// The output for one cell when the terminal holds the colors `fg` and `bg`:
/// a color selection for each layer whose color differs, then the glyph.
pub open spec fn cell_ops(p: Pixel, fg: Color, bg: Color) -> Seq<Op> {
    (if p.foreground_color != fg {
        seq![Op::Fg(p.foreground_color)]
    } else {
        Seq::empty()
    }) + (if p.background_color != bg {
        seq![Op::Bg(p.background_color)]
    } else {
        Seq::empty()
    }) + seq![Op::Glyph(p.c)]
}

/// The output for a run of cells, printed left to right from the colors `fg`
/// and `bg`.
pub open spec fn row_ops(cells: Seq<Pixel>, fg: Color, bg: Color) -> Seq<Op>
    decreases cells.len(),
{
    if cells.len() == 0 {
        Seq::empty()
    } else {
        let rest = cells.drop_last();
        row_ops(rest, fg, bg) + cell_ops(
            cells.last(),
            last_color(rest, Layer::Fore, fg),
            last_color(rest, Layer::Back, bg),
        )
    }
}

/// The color on layer `l` that the terminal holds after `rows` were printed
/// from black.
pub open spec fn grid_color(rows: Seq<Seq<Pixel>>, l: Layer) -> Color
    decreases rows.len(),
{
    if rows.len() == 0 {
        Color::Black
    } else {
        last_color(rows.last(), l, grid_color(rows.drop_last(), l))
    }
}

/// The output for `rows`, top to bottom: each row's cells, then a move to the
/// start of the next line at column `left`.
pub open spec fn rows_ops(rows: Seq<Seq<Pixel>>, left: u64) -> Seq<Op>
    decreases rows.len(),
{
    if rows.len() == 0 {
        Seq::empty()
    } else {
        let rest = rows.drop_last();
        rows_ops(rest, left) + row_ops(
            rows.last(),
            grid_color(rest, Layer::Fore),
            grid_color(rest, Layer::Back),
        ) + seq![Op::MoveTo(left, rows.len() as u64)]
    }
}

/// The whole output of a render of `rows` at column `left`: erase the
/// screen, move to the top line, then the rows.
pub open spec fn frame_ops(rows: Seq<Seq<Pixel>>, left: u64) -> Seq<Op> {
    seq![Op::Erase, Op::MoveTo(left, 0)] + rows_ops(rows, left)
}

/// The column at which a block of `rows` rows starts on a terminal
/// `term_width` columns wide: half the width less half the row count, both
/// rounded down, and 0 where that is negative or the width is unknown.
pub open spec fn left_offset(term_width: Option<u16>, rows: nat) -> u64 {
    match term_width {
        None => 0,
        Some(w) => if w / 2 >= rows / 2 {
            (w / 2 - rows / 2) as u64
        } else {
            0
        },
    }
}

/// The cells of `rows` in the order they are printed: row by row, left to
/// right.
pub open spec fn cells_of(rows: Seq<Seq<Pixel>>) -> Seq<Pixel>
    decreases rows.len(),
{
    if rows.len() == 0 {
        Seq::empty()
    } else {
        cells_of(rows.drop_last()) + rows.last()
    }
}

/// The color on layer `l` of the cell printed before cell `i` of `cells`, or
/// black for the first cell.
pub open spec fn color_before(cells: Seq<Pixel>, i: int, l: Layer) -> Color {
    if i == 0 {
        Color::Black
    } else {
        color_of(cells[i - 1], l)
    }
}

/// How many of `cells` differ on layer `l` from the cell printed before them
/// (the first one: from black).
pub open spec fn changes(cells: Seq<Pixel>, l: Layer) -> nat
    decreases cells.len(),
{
    if cells.len() == 0 {
        0
    } else {
        let rest = cells.drop_last();
        changes(rest, l) + if color_of(cells.last(), l) != last_color(rest, l, Color::Black) {
            1nat
        } else {
            0nat
        }
    }
}

/// Counting color selections adds up over concatenation.
pub proof fn lemma_count_selects_add(a: Seq<Op>, b: Seq<Op>, l: Layer)
    ensures
        count_selects(a + b, l) == count_selects(a, l) + count_selects(b, l),
    decreases b.len(),
{
    if b.len() > 0 {
        assert((a + b).drop_last() =~= a + b.drop_last());
        lemma_count_selects_add(a, b.drop_last(), l);
    } else {
        assert(a + b =~= a);
    }
}

/// Counting erasures adds up over concatenation.
pub proof fn lemma_count_erase_add(a: Seq<Op>, b: Seq<Op>)
    ensures
        count_erase(a + b) == count_erase(a) + count_erase(b),
    decreases b.len(),
{
    if b.len() > 0 {
        assert((a + b).drop_last() =~= a + b.drop_last());
        lemma_count_erase_add(a, b.drop_last());
    } else {
        assert(a + b =~= a);
    }
}

/// The color held after `a` then `b` is that held after `b`, started from
/// the color held after `a`.
pub proof fn lemma_last_color_concat(a: Seq<Pixel>, b: Seq<Pixel>, l: Layer)
    ensures
        last_color(a + b, l, Color::Black) == last_color(b, l, last_color(a, l, Color::Black)),
{
    if b.len() == 0 {
        assert(a + b =~= a);
    } else {
        assert((a + b).last() == b.last());
    }
}

/// The selections and erasures in the output for one cell.
proof fn lemma_cell_counts(p: Pixel, fg: Color, bg: Color, l: Layer)
    ensures
        count_selects(cell_ops(p, fg, bg), l) == if color_of(p, l) != (match l {
            Layer::Fore => fg,
            Layer::Back => bg,
        }) {
            1nat
        } else {
            0nat
        },
        count_erase(cell_ops(p, fg, bg)) == 0,
{
    let f: Seq<Op> = if p.foreground_color != fg {
        seq![Op::Fg(p.foreground_color)]
    } else {
        Seq::empty()
    };
    let b: Seq<Op> = if p.background_color != bg {
        seq![Op::Bg(p.background_color)]
    } else {
        Seq::empty()
    };
    let g: Seq<Op> = seq![Op::Glyph(p.c)];
    lemma_count_selects_add(f + b, g, l);
    lemma_count_selects_add(f, b, l);
    lemma_count_erase_add(f + b, g);
    lemma_count_erase_add(f, b);
    reveal_with_fuel(count_selects, 2);
    reveal_with_fuel(count_erase, 2);
    assert(seq![Op::Glyph(p.c)].drop_last() =~= Seq::<Op>::empty());
    if p.foreground_color != fg {
        assert(seq![Op::Fg(p.foreground_color)].drop_last() =~= Seq::<Op>::empty());
    }
    if p.background_color != bg {
        assert(seq![Op::Bg(p.background_color)].drop_last() =~= Seq::<Op>::empty());
    }
}

/// Printing `cells` after `prefix` selects a color on layer `l` once for each
/// of its cells that differs from the cell before it, and never erases.
proof fn lemma_row_counts(prefix: Seq<Pixel>, cells: Seq<Pixel>, l: Layer)
    ensures
        count_selects(
            row_ops(
                cells,
                last_color(prefix, Layer::Fore, Color::Black),
                last_color(prefix, Layer::Back, Color::Black),
            ),
            l,
        ) + changes(prefix, l) == changes(prefix + cells, l),
        count_erase(
            row_ops(
                cells,
                last_color(prefix, Layer::Fore, Color::Black),
                last_color(prefix, Layer::Back, Color::Black),
            ),
        ) == 0,
    decreases cells.len(),
{
    let fg = last_color(prefix, Layer::Fore, Color::Black);
    let bg = last_color(prefix, Layer::Back, Color::Black);
    if cells.len() == 0 {
        assert(prefix + cells =~= prefix);
    } else {
        let rest = cells.drop_last();
        lemma_row_counts(prefix, rest, l);
        let fg1 = last_color(rest, Layer::Fore, fg);
        let bg1 = last_color(rest, Layer::Back, bg);
        lemma_count_selects_add(row_ops(rest, fg, bg), cell_ops(cells.last(), fg1, bg1), l);
        lemma_count_erase_add(row_ops(rest, fg, bg), cell_ops(cells.last(), fg1, bg1));
        lemma_cell_counts(cells.last(), fg1, bg1, l);
        assert((prefix + cells).drop_last() =~= prefix + rest);
        assert((prefix + cells).last() == cells.last());
        lemma_last_color_concat(prefix, rest, Layer::Fore);
        lemma_last_color_concat(prefix, rest, Layer::Back);
    }
}

/// The counts in the output for `rows`, and the colors it leaves behind.
proof fn lemma_rows_counts(rows: Seq<Seq<Pixel>>, left: u64, l: Layer)
    ensures
        count_selects(rows_ops(rows, left), l) == changes(cells_of(rows), l),
        count_erase(rows_ops(rows, left)) == 0,
        grid_color(rows, Layer::Fore) == last_color(cells_of(rows), Layer::Fore, Color::Black),
        grid_color(rows, Layer::Back) == last_color(cells_of(rows), Layer::Back, Color::Black),
    decreases rows.len(),
{
    if rows.len() > 0 {
        let rest = rows.drop_last();
        lemma_rows_counts(rest, left, l);
        let prefix = cells_of(rest);
        lemma_row_counts(prefix, rows.last(), l);
        let body = row_ops(
            rows.last(),
            grid_color(rest, Layer::Fore),
            grid_color(rest, Layer::Back),
        );
        let mv: Seq<Op> = seq![Op::MoveTo(left, rows.len() as u64)];
        lemma_count_selects_add(rows_ops(rest, left) + body, mv, l);
        lemma_count_selects_add(rows_ops(rest, left), body, l);
        lemma_count_erase_add(rows_ops(rest, left) + body, mv);
        lemma_count_erase_add(rows_ops(rest, left), body);
        reveal_with_fuel(count_selects, 2);
        reveal_with_fuel(count_erase, 2);
        assert(mv.drop_last() =~= Seq::<Op>::empty());
        lemma_last_color_concat(prefix, rows.last(), Layer::Fore);
        lemma_last_color_concat(prefix, rows.last(), Layer::Back);
    }
}

/// A render selects a color on a layer exactly where a cell's color on that
/// layer differs from the one printed before it (from black for the first
/// cell): one selection per change of color, none for a run of equal colors.
pub proof fn lemma_selections_match_changes(rows: Seq<Seq<Pixel>>, left: u64, l: Layer)
    ensures
        count_selects(frame_ops(rows, left), l) == changes(cells_of(rows), l),
{
    lemma_rows_counts(rows, left, l);
    let head: Seq<Op> = seq![Op::Erase, Op::MoveTo(left, 0)];
    lemma_count_selects_add(head, rows_ops(rows, left), l);
    reveal_with_fuel(count_selects, 3);
    assert(head.drop_last().drop_last() =~= Seq::<Op>::empty());
}

/// A render erases the screen once, as its very first unit of output.
pub proof fn lemma_erase_once_first(rows: Seq<Seq<Pixel>>, left: u64)
    ensures
        frame_ops(rows, left)[0] == Op::Erase,
        count_erase(frame_ops(rows, left)) == 1,
{
    lemma_rows_counts(rows, left, Layer::Fore);
    let head: Seq<Op> = seq![Op::Erase, Op::MoveTo(left, 0)];
    lemma_count_erase_add(head, rows_ops(rows, left));
    reveal_with_fuel(count_erase, 3);
    assert(head.drop_last().drop_last() =~= Seq::<Op>::empty());
    assert(head.drop_last().last() == Op::Erase);
}

/// Where every cell has the color `c` on layer `l`, a render selects a color
/// on that layer at most once, whatever the size of the grid.
pub proof fn lemma_uniform_color(rows: Seq<Seq<Pixel>>, left: u64, l: Layer, c: Color)
    requires
        forall|i: int| 0 <= i < cells_of(rows).len() ==> color_of(#[trigger] cells_of(rows)[i], l) == c,
    ensures
        count_selects(frame_ops(rows, left), l) <= 1,
{
    lemma_selections_match_changes(rows, left, l);
    lemma_uniform_changes(cells_of(rows), l, c);
}

/// The changes in a run of cells of one color: one if that color is not
/// black and the run is not empty, else none.
proof fn lemma_uniform_changes(cells: Seq<Pixel>, l: Layer, c: Color)
    requires
        forall|i: int| 0 <= i < cells.len() ==> color_of(#[trigger] cells[i], l) == c,
    ensures
        changes(cells, l) == if cells.len() > 0 && c != Color::Black {
            1nat
        } else {
            0nat
        },
    decreases cells.len(),
{
    if cells.len() > 0 {
        let rest = cells.drop_last();
        assert(forall|i: int| 0 <= i < rest.len() ==> #[trigger] rest[i] == cells[i]);
        lemma_uniform_changes(rest, l, c);
        assert(color_of(cells[cells.len() - 1], l) == c);
        if rest.len() > 0 {
            assert(color_of(cells[rest.len() - 1], l) == c);
        }
    }
}

/// Where every cell differs on layer `l` from the cell printed before it
/// (the first one: from black), a render selects a color on that layer once
/// per cell.
pub proof fn lemma_alternating_color(rows: Seq<Seq<Pixel>>, left: u64, l: Layer)
    requires
        forall|i: int|
            0 <= i < cells_of(rows).len() ==> color_of(cells_of(rows)[i], l) != #[trigger] color_before(
                cells_of(rows),
                i,
                l,
            ),
    ensures
        count_selects(frame_ops(rows, left), l) == cells_of(rows).len(),
{
    lemma_selections_match_changes(rows, left, l);
    lemma_alternating_changes(cells_of(rows), l);
}

/// A run of cells that each differ from the one before has one change per
/// cell.
proof fn lemma_alternating_changes(cells: Seq<Pixel>, l: Layer)
    requires
        forall|i: int| 0 <= i < cells.len() ==> color_of(cells[i], l) != #[trigger] color_before(cells, i, l),
    ensures
        changes(cells, l) == cells.len(),
    decreases cells.len(),
{
    if cells.len() > 0 {
        let rest = cells.drop_last();
        assert forall|i: int| 0 <= i < rest.len() implies color_of(rest[i], l) != #[trigger] color_before(
            rest,
            i,
            l,
        ) by {
            assert(color_before(rest, i, l) == color_before(cells, i, l));
        }
        lemma_alternating_changes(rest, l);
        assert(color_of(cells[cells.len() - 1], l) != color_before(cells, cells.len() - 1, l));
    }
}

} // verus!
