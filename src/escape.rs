use vstd::prelude::*;

use crate::color::{color_code, Color};

verus! {

/// The ESC control byte that opens every terminal command.
pub const ESC: u8 = 0x1b;

/// One unit of terminal output, before it is encoded as bytes.
#[derive(Clone, Copy, Debug, PartialEq, Eq)]
pub enum Op {
    /// Erase the entire screen.
    Erase,
    /// Move the cursor to a 0-based column and row.
    MoveTo(u64, u64),
    /// Select the foreground color.
    Fg(Color),
    /// Select the background color.
    Bg(Color),
    /// Print one character cell.
    Glyph(char),
}

/// The ASCII decimal digits of `n`, most significant first, with no leading zero.
pub open spec fn decimal(n: nat) -> Seq<u8>
    decreases n,
{
    if n < 10 {
        seq![(48 + n) as u8]
    } else {
        decimal(n / 10) + seq![(48 + n % 10) as u8]
    }
}

/// `ESC [` followed by `body`.
pub open spec fn csi(body: Seq<u8>) -> Seq<u8> {
    seq![ESC, 91u8] + body
}

/// The byte that stands for a character cell: its code point cut to eight bits.
pub open spec fn glyph_byte(c: char) -> u8 {
    (c as u32) as u8
}

/// The bytes of one unit of output.
pub open spec fn encode(op: Op) -> Seq<u8> {
    match op {
        // ESC [ 2 J
        Op::Erase => csi(seq![50u8, 74u8]),
        // ESC [ row ; col H, both 1-based
        Op::MoveTo(col, row) => csi(
            decimal(row as nat + 1) + seq![59u8] + decimal(col as nat + 1) + seq![72u8],
        ),
        // ESC [ 3 8 ; 5 ; n m
        Op::Fg(c) => csi(
            seq![51u8, 56u8, 59u8, 53u8, 59u8] + decimal(color_code(c) as nat) + seq![109u8],
        ),
        // ESC [ 4 8 ; 5 ; n m
        Op::Bg(c) => csi(
            seq![52u8, 56u8, 59u8, 53u8, 59u8] + decimal(color_code(c) as nat) + seq![109u8],
        ),
        Op::Glyph(c) => seq![glyph_byte(c)],
    }
}

/// The bytes of a sequence of units of output, in order.
pub open spec fn encode_all(ops: Seq<Op>) -> Seq<u8>
    decreases ops.len(),
{
    if ops.len() == 0 {
        Seq::empty()
    } else {
        encode_all(ops.drop_last()) + encode(ops.last())
    }
}

/// Appending one unit of output appends its bytes.
pub proof fn lemma_encode_push(ops: Seq<Op>, op: Op)
    ensures
        encode_all(ops.push(op)) == encode_all(ops) + encode(op),
{
    assert(ops.push(op).drop_last() =~= ops);
}

/// The bytes of two sequences of units of output, one after the other.
pub proof fn lemma_encode_concat(a: Seq<Op>, b: Seq<Op>)
    ensures
        encode_all(a + b) == encode_all(a) + encode_all(b),
    decreases b.len(),
{
    if b.len() == 0 {
        assert(a + b =~= a);
        assert(encode_all(a) + encode_all(b) =~= encode_all(a));
    } else {
        assert((a + b).drop_last() =~= a + b.drop_last());
        lemma_encode_concat(a, b.drop_last());
        assert(encode_all(a) + encode_all(b) =~= encode_all(a) + encode_all(b.drop_last()) + encode(
            b.last(),
        ));
    }
}

/// Appends the decimal digits of `n`.
pub fn push_decimal(out: &mut Vec<u8>, n: u64)
    ensures
        final(out)@ == old(out)@ + decimal(n as nat),
    decreases n,
{
    if n >= 10 {
        push_decimal(out, n / 10);
    }
    out.push(48u8 + (n % 10) as u8);
    proof {
        if n >= 10 {
            assert(old(out)@ + decimal(n as nat) =~= old(out)@ + decimal((n / 10) as nat) + seq![
                (48 + n % 10) as u8,
            ]);
        }
    }
    assert(final(out)@ =~= old(out)@ + decimal(n as nat));
}

/// Appends `ESC [`, the opening of every command.
pub fn esc(out: &mut Vec<u8>)
    ensures
        final(out)@ == old(out)@ + seq![ESC, 91u8],
{
    out.push(ESC);
    out.push(91u8);
    assert(final(out)@ =~= old(out)@ + seq![ESC, 91u8]);
}

/// Appends the bytes of one unit of output.
pub fn emit(out: &mut Vec<u8>, op: Op)
    requires
        op matches Op::MoveTo(col, row) ==> col < u64::MAX && row < u64::MAX,
    ensures
        final(out)@ == old(out)@ + encode(op),
{
    match op {
        Op::Erase => {
            esc(out);
            out.push(50u8);
            out.push(74u8);
        },
        Op::MoveTo(col, row) => set_cursor_pos(out, col, row),
        Op::Fg(c) => set_foreground_color(out, c),
        Op::Bg(c) => set_background_color(out, c),
        Op::Glyph(c) => out.push((c as u32) as u8),
    }
    assert(final(out)@ =~= old(out)@ + encode(op));
}

/// Appends the command that moves the cursor to the 0-based column `x` and row `y`.
pub fn set_cursor_pos(out: &mut Vec<u8>, x: u64, y: u64)
    requires
        x < u64::MAX,
        y < u64::MAX,
    ensures
        final(out)@ == old(out)@ + encode(Op::MoveTo(x, y)),
{
    esc(out);
    push_decimal(out, y + 1);
    out.push(59u8);
    push_decimal(out, x + 1);
    out.push(72u8);
    assert(final(out)@ =~= old(out)@ + encode(Op::MoveTo(x, y)));
}

/// Appends the command that selects `color` for the foreground.
pub fn set_foreground_color(out: &mut Vec<u8>, color: Color)
    ensures
        final(out)@ == old(out)@ + encode(Op::Fg(color)),
{
    esc(out);
    out.push(51u8);
    out.push(56u8);
    out.push(59u8);
    out.push(53u8);
    out.push(59u8);
    push_decimal(out, color.code() as u64);
    out.push(109u8);
    assert(final(out)@ =~= old(out)@ + encode(Op::Fg(color)));
}

/// Appends the command that selects `color` for the background.
pub fn set_background_color(out: &mut Vec<u8>, color: Color)
    ensures
        final(out)@ == old(out)@ + encode(Op::Bg(color)),
{
    esc(out);
    out.push(52u8);
    out.push(56u8);
    out.push(59u8);
    out.push(53u8);
    out.push(59u8);
    push_decimal(out, color.code() as u64);
    out.push(109u8);
    assert(final(out)@ =~= old(out)@ + encode(Op::Bg(color)));
}

} // verus!
