use vstd::prelude::*;

use crate::color::Color;
use crate::escape::{
    emit, encode, encode_all, lemma_encode_concat, lemma_encode_push, set_background_color, set_foreground_color, Op,
};
use crate::frame::{cell_ops, frame_ops, grid_color, last_color, left_offset, row_ops, rows_ops, Layer};
use vstd::std_specs::iter::IteratorSpec;

verus! {

/// One character position of the grid: a glyph and its two colors.
#[derive(Clone, Copy, Debug, PartialEq, Eq, Structural)]
pub struct Pixel {
    pub c: char,
    pub foreground_color: Color,
    pub background_color: Color,
}

/// Why an operation on a display was refused.
#[derive(Clone, Copy, Debug, PartialEq, Eq, Structural)]
pub enum DisplayError {
    /// A write reaches past the edge of the grid.
    OutOfBounds,
    /// A grid with no columns or no rows was asked for.
    DegenerateBuffer,
}

/// The blank cell: a space, black on black.
pub open spec fn blank() -> Pixel {
    Pixel { c: ' ', foreground_color: Color::Black, background_color: Color::Black }
}

/// A grid of `height` rows of `width` blank cells.
pub open spec fn blank_grid(width: nat, height: nat) -> Seq<Seq<Pixel>> {
    Seq::new(height, |y: int| Seq::new(width, |x: int| blank()))
}

/// Cell `i` of `row` after `text` is written into it from column `x` on, in
/// the colors `fg` and `bg`.
pub open spec fn written_cell(
    row: Seq<Pixel>,
    text: Seq<char>,
    x: int,
    fg: Color,
    bg: Color,
    i: int,
) -> Pixel {
    if x <= i < x + text.len() {
        Pixel { c: text[i - x], foreground_color: fg, background_color: bg }
    } else {
        row[i]
    }
}

/// The first `n` cells of `row` after `text` is written into it from column
/// `x` on.
pub open spec fn written_prefix(
    row: Seq<Pixel>,
    text: Seq<char>,
    x: int,
    fg: Color,
    bg: Color,
    n: nat,
) -> Seq<Pixel> {
    Seq::new(n, |i: int| written_cell(row, text, x, fg, bg, i))
}

/// The grid `g` after `text` is written into row `y` from column `x` on, in
/// the colors `fg` and `bg`.
pub open spec fn written(
    g: Seq<Seq<Pixel>>,
    text: Seq<char>,
    x: int,
    y: int,
    fg: Color,
    bg: Color,
) -> Seq<Seq<Pixel>> {
    g.update(y, written_prefix(g[y], text, x, fg, bg, g[y].len()))
}

/// Writing `text` into row `y` from column `x` on, where it fits, and then
/// reading the grid back gives each character of `text` in its cell with the
/// two colors written, and every other cell as it was; the grid keeps its
/// shape.
pub proof fn lemma_write_read_back(
    g: Seq<Seq<Pixel>>,
    text: Seq<char>,
    x: int,
    y: int,
    fg: Color,
    bg: Color,
)
    requires
        0 <= y < g.len(),
        0 <= x,
        x + text.len() <= g[y].len(),
    ensures
        written(g, text, x, y, fg, bg).len() == g.len(),
        forall|j: int| 0 <= j < g.len() ==> #[trigger] written(g, text, x, y, fg, bg)[j].len() == g[j].len(),
        forall|i: int|
            0 <= i < text.len() ==> #[trigger] written(g, text, x, y, fg, bg)[y][x + i] == (Pixel {
                c: text[i],
                foreground_color: fg,
                background_color: bg,
            }),
        forall|j: int, i: int|
            0 <= j < g.len() && 0 <= i < g[j].len() && !(j == y && x <= i < x + text.len())
                ==> #[trigger] written(g, text, x, y, fg, bg)[j][i] == g[j][i],
{
    let w = written(g, text, x, y, fg, bg);
    assert forall|i: int| 0 <= i < text.len() implies #[trigger] w[y][x + i] == (Pixel {
        c: text[i],
        foreground_color: fg,
        background_color: bg,
    }) by {
        assert(x + i - x == i);
    }
}

/// A fixed-size grid of colored character cells.
pub struct Display {
    buffer: Vec<Vec<Pixel>>,
    width: u32,
    height: u32,
}

impl View for Display {
    type V = Seq<Seq<Pixel>>;

    closed spec fn view(&self) -> Seq<Seq<Pixel>> {
        self.buffer@.map_values(|row: Vec<Pixel>| row@)
    }
}

impl Display {
    /// Number of cells in each row.
    pub closed spec fn spec_width(&self) -> nat {
        self.width as nat
    }

    /// Number of rows.
    pub closed spec fn spec_height(&self) -> nat {
        self.height as nat
    }

    /// The grid has `spec_height` rows of `spec_width` cells, both nonzero.
    pub closed spec fn wf(&self) -> bool {
        &&& self.width > 0
        &&& self.height > 0
        &&& self.buffer@.len() == self.height
        &&& forall|y: int| 0 <= y < self.buffer@.len() ==> #[trigger] self.buffer@[y]@.len() == self.width
    }

    /// A grid of `width` columns and `height` rows of blank cells; refused when
    /// either is zero.
    pub fn new(width: u32, height: u32) -> (r: Result<Display, DisplayError>)
        ensures
            width == 0 || height == 0 <==> r is Err,
            r is Err ==> r == Err::<Display, DisplayError>(DisplayError::DegenerateBuffer),
            r matches Ok(d) ==> {
                &&& d.wf()
                &&& d.spec_width() == width
                &&& d.spec_height() == height
                &&& d@ == blank_grid(width as nat, height as nat)
            },
    {
        if width == 0 || height == 0 {
            return Err(DisplayError::DegenerateBuffer);
        }
        let mut rows: Vec<Vec<Pixel>> = Vec::new();
        let mut y: u32 = 0;
        while y < height
            invariant
                y <= height,
                rows@.len() == y,
                forall|j: int| 0 <= j < y ==> #[trigger] rows@[j]@ == blank_grid(width as nat, 1)[0],
            decreases height - y,
        {
            rows.push(blank_row(width));
            y = y + 1;
        }
        let d = Display { buffer: rows, width, height };
        assert(d@ =~= blank_grid(width as nat, height as nat));
        Ok(d)
    }

    /// Number of cells in each row.
    pub fn width(&self) -> (r: u32)
        ensures
            r == self.spec_width(),
    {
        self.width
    }

    /// Number of rows.
    pub fn height(&self) -> (r: u32)
        ensures
            r == self.spec_height(),
    {
        self.height
    }

    /// The cell at column `x` of row `y`, or `None` outside the grid.
    pub fn cell(&self, x: u32, y: u32) -> (r: Option<Pixel>)
        requires
            self.wf(),
        ensures
            (x < self.spec_width() && y < self.spec_height()) <==> r is Some,
            r matches Some(p) ==> p == self@[y as int][x as int],
    {
        if y < self.height && x < self.width {
            Some(self.buffer[y as usize][x as usize])
        } else {
            None
        }
    }

    /// Sets every cell back to blank. The size of the grid is kept.
    pub fn clear_buffer(&mut self)
        requires
            old(self).wf(),
        ensures
            final(self).wf(),
            final(self).spec_width() == old(self).spec_width(),
            final(self).spec_height() == old(self).spec_height(),
            final(self)@ == blank_grid(old(self).spec_width(), old(self).spec_height()),
    {
        let mut y: usize = 0;
        while y < self.buffer.len()
            invariant
                self.wf(),
                self.width == old(self).width,
                self.height == old(self).height,
                y <= self.buffer@.len(),
                forall|j: int| 0 <= j < y ==> #[trigger] self.buffer@[j]@ == blank_grid(self.width as nat, 1)[0],
            decreases self.buffer@.len() - y,
        {
            let row = blank_row(self.width);
            self.buffer.set(y, row);
            y = y + 1;
        }
        assert(self@ =~= blank_grid(self.width as nat, self.height as nat));
    }

    /// The bytes that erase the whole screen. The grid is not touched.
    pub fn clear_screen(&self) -> (r: Vec<u8>)
        ensures
            r@ == encode(Op::Erase),
    {
        let mut out: Vec<u8> = Vec::new();
        emit(&mut out, Op::Erase);
        assert(out@ =~= encode(Op::Erase));
        out
    }

    /// The bytes of a full redraw on a terminal `terminal_width` columns wide
    /// (`None` where the width is unknown): erase the screen, move to the top
    /// line at the column that `left_offset` gives, then print the rows top to
    /// bottom, each cell left to right, selecting a color only where it
    /// differs from the one printed before, and moving to the next line after
    /// each row.
    pub fn render(&self, terminal_width: Option<u16>) -> (r: Vec<u8>)
        requires
            self.wf(),
        ensures
            r@ == encode_all(frame_ops(self@, left_offset(terminal_width, self.spec_height()))),
    {
        let left: u64 = match terminal_width {
            None => 0,
            Some(w) => {
                let half_width: u64 = (w / 2) as u64;
                let half_height: u64 = (self.height / 2) as u64;
                if half_width >= half_height {
                    half_width - half_height
                } else {
                    0
                }
            },
        };
        let mut out: Vec<u8> = Vec::new();
        let ghost mut ops: Seq<Op> = Seq::empty();
        assert(out@ =~= encode_all(ops));
        emit(&mut out, Op::Erase);
        proof {
            lemma_encode_push(ops, Op::Erase);
            ops = ops.push(Op::Erase);
        }
        emit(&mut out, Op::MoveTo(left, 0));
        proof {
            lemma_encode_push(ops, Op::MoveTo(left, 0));
            ops = ops.push(Op::MoveTo(left, 0));
            assert(self@.take(0) =~= Seq::<Seq<Pixel>>::empty());
            assert(ops =~= seq![Op::Erase, Op::MoveTo(left, 0)] + rows_ops(self@.take(0), left));
        }
        let mut fg = Color::Black;
        let mut bg = Color::Black;
        let mut y: usize = 0;
        while y < self.buffer.len()
            invariant
                self.wf(),
                y <= self.buffer@.len(),
                left < 0x8000,
                out@ == encode_all(ops),
                ops == seq![Op::Erase, Op::MoveTo(left, 0)] + rows_ops(self@.take(y as int), left),
                fg == grid_color(self@.take(y as int), Layer::Fore),
                bg == grid_color(self@.take(y as int), Layer::Back),
            decreases self.buffer@.len() - y,
        {
            let row = &self.buffer[y];
            let ghost before = ops;
            let ghost fg0 = fg;
            let ghost bg0 = bg;
            let mut x: usize = 0;
            assert(row@.take(0) =~= Seq::<Pixel>::empty());
            assert(ops =~= before + row_ops(row@.take(0), fg0, bg0));
            while x < row.len()
                invariant
                    x <= row@.len(),
                    out@ == encode_all(ops),
                    ops == before + row_ops(row@.take(x as int), fg0, bg0),
                    fg == last_color(row@.take(x as int), Layer::Fore, fg0),
                    bg == last_color(row@.take(x as int), Layer::Back, bg0),
                decreases row@.len() - x,
            {
                let p = row[x];
                print_cell(&mut out, p, fg, bg);
                proof {
                    lemma_encode_concat(ops, cell_ops(p, fg, bg));
                    ops = ops + cell_ops(p, fg, bg);
                    assert(row@.take(x + 1).drop_last() =~= row@.take(x as int));
                    assert(row@.take(x + 1).last() == p);
                    assert(ops =~= before + row_ops(row@.take(x + 1), fg0, bg0));
                }
                fg = p.foreground_color;
                bg = p.background_color;
                x = x + 1;
            }
            proof {
                assert(row@.take(row@.len() as int) =~= row@);
                assert(self@.take(y + 1).drop_last() =~= self@.take(y as int));
                assert(self@.take(y + 1).last() == row@);
            }
            emit(&mut out, Op::MoveTo(left, (y + 1) as u64));
            proof {
                lemma_encode_push(ops, Op::MoveTo(left, (y + 1) as u64));
                ops = ops.push(Op::MoveTo(left, (y + 1) as u64));
                assert(ops =~= seq![Op::Erase, Op::MoveTo(left, 0)] + rows_ops(self@.take(y + 1), left));
            }
            y = y + 1;
        }
        assert(self@.take(self@.len() as int) =~= self@);
        out
    }

    /// Writes the characters of `text`, one cell each, into row `y` from
    /// column `x` on, in the colors `foreground_color` and
    /// `background_color`. Refused, with the grid left as it was, where the
    /// row does not exist or the text would run past its end.
    pub fn set_text(
        &mut self,
        text: &str,
        x: u32,
        y: u32,
        foreground_color: Color,
        background_color: Color,
    ) -> (r: Result<(), DisplayError>)
        requires
            old(self).wf(),
        ensures
            final(self).wf(),
            final(self).spec_width() == old(self).spec_width(),
            final(self).spec_height() == old(self).spec_height(),
            r is Err <==> (y >= old(self).spec_height() || x + text@.len() > old(self).spec_width()),
            r is Err ==> r == Err::<(), DisplayError>(DisplayError::OutOfBounds) && final(self)@ == old(self)@,
            r is Ok ==> final(self)@ == written(
                old(self)@,
                text@,
                x as int,
                y as int,
                foreground_color,
                background_color,
            ),
    {
        let chars = chars_of(text);
        if y >= self.height || x > self.width || chars.len() > (self.width - x) as usize {
            return Err(DisplayError::OutOfBounds);
        }
        let ghost g = self@;
        let end: u32 = x + chars.len() as u32;
        let old_row = &self.buffer[y as usize];
        let mut row: Vec<Pixel> = Vec::new();
        let mut i: u32 = 0;
        assert(row@ =~= written_prefix(
            g[y as int],
            text@,
            x as int,
            foreground_color,
            background_color,
            0,
        ));
        while i < self.width
            invariant
                self.wf(),
                self@ == g,
                y < self.height,
                x + chars@.len() <= self.width,
                end == x + chars@.len(),
                chars@ == text@,
                old_row@ == g[y as int],
                i <= self.width,
                row@ == written_prefix(
                    g[y as int],
                    text@,
                    x as int,
                    foreground_color,
                    background_color,
                    i as nat,
                ),
            decreases self.width - i,
        {
            if x <= i && i < end {
                row.push(
                    Pixel {
                        c: chars[(i - x) as usize],
                        foreground_color: foreground_color,
                        background_color: background_color,
                    },
                );
            } else {
                row.push(old_row[i as usize]);
            }
            assert(row@[i as int] == written_cell(
                g[y as int],
                text@,
                x as int,
                foreground_color,
                background_color,
                i as int,
            ));
            i = i + 1;
            assert(row@ =~= written_prefix(
                g[y as int],
                text@,
                x as int,
                foreground_color,
                background_color,
                i as nat,
            ));
        }
        self.buffer.set(y as usize, row);
        assert(self@ =~= written(g, text@, x as int, y as int, foreground_color, background_color));
        Ok(())
    }
}

/// Appends the output for cell `p` when the terminal holds the colors `fg`
/// and `bg`.
fn print_cell(out: &mut Vec<u8>, p: Pixel, fg: Color, bg: Color)
    ensures
        final(out)@ == old(out)@ + encode_all(cell_ops(p, fg, bg)),
{
    let ghost mut ops: Seq<Op> = Seq::empty();
    let ghost start = out@;
    assert(out@ =~= start + encode_all(ops));
    if p.foreground_color != fg {
        set_foreground_color(out, p.foreground_color);
        proof {
            lemma_encode_push(ops, Op::Fg(p.foreground_color));
            ops = ops.push(Op::Fg(p.foreground_color));
        }
        assert(out@ =~= start + encode_all(ops));
    }
    if p.background_color != bg {
        set_background_color(out, p.background_color);
        proof {
            lemma_encode_push(ops, Op::Bg(p.background_color));
            ops = ops.push(Op::Bg(p.background_color));
        }
        assert(out@ =~= start + encode_all(ops));
    }
    emit(out, Op::Glyph(p.c));
    proof {
        lemma_encode_push(ops, Op::Glyph(p.c));
        ops = ops.push(Op::Glyph(p.c));
    }
    assert(out@ =~= start + encode_all(ops));
    assert(ops =~= cell_ops(p, fg, bg));
}

/// A row of `width` blank cells.
fn blank_row(width: u32) -> (r: Vec<Pixel>)
    ensures
        r@ == blank_grid(width as nat, 1)[0],
{
    let mut row: Vec<Pixel> = Vec::new();
    let mut x: u32 = 0;
    while x < width
        invariant
            x <= width,
            row@ == blank_grid(x as nat, 1)[0],
        decreases width - x,
    {
        row.push(Pixel { c: ' ', foreground_color: Color::Black, background_color: Color::Black });
        x = x + 1;
        assert(row@ =~= blank_grid(x as nat, 1)[0]);
    }
    row
}

/// The characters of `text`, in order.
fn chars_of(text: &str) -> (r: Vec<char>)
    ensures
        r@ == text@,
{
    let mut it = text.chars();
    let mut out: Vec<char> = Vec::new();
    loop
        invariant
            out@ + it.remaining() == text@,
            it.decrease() is Some,
        ensures
            out@ == text@,
        decreases it.decrease()->0,
    {
        match it.next() {
            Some(c) => out.push(c),
            None => {
                assert(out@ + it.remaining() == out@);
                break;
            },
        }
    }
    out
}

} // verus!
