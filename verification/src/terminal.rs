//! The bytes that show a frame on a terminal.
//!
//! A frame is sent as its rows from top to bottom, each followed by a line
//! feed, and then the control sequence that moves the cursor back up over
//! them and one line more, so that the next frame overwrites this one in
//! place.

use vstd::prelude::*;
use crate::buffer::{row_text, FrameBuffer, Glyph};

verus! {

/// The decimal digits of `n` in ASCII, without leading zeros.
pub open spec fn decimal(n: nat) -> Seq<u8>
    decreases n,
{
    if n < 10 {
        seq![(0x30 + n) as u8]
    } else {
        decimal(n / 10).push((0x30 + n % 10) as u8)
    }
}

/// The control sequence that moves the cursor up by `lines` lines:
/// escape, `[`, the count in decimal, `A`.
pub open spec fn cursor_up_text(lines: nat) -> Seq<u8> {
    seq![0x1bu8, 0x5bu8] + decimal(lines) + seq![0x41u8]
}

/// The rows of `grid` from top to bottom, each followed by a line feed.
pub open spec fn rows_text(grid: Seq<Seq<Glyph>>) -> Seq<u8>
    decreases grid.len(),
{
    if grid.len() == 0 {
        Seq::empty()
    } else {
        rows_text(grid.drop_last()) + row_text(grid.last()) + seq![0x0au8]
    }
}

/// Everything sent for one frame: the rows, then the cursor moved up by
/// one line more than there are rows.
pub open spec fn frame_text(grid: Seq<Seq<Glyph>>) -> Seq<u8> {
    rows_text(grid) + cursor_up_text(grid.len() + 1)
}

/// Returns the decimal digits of `n` in ASCII.
fn decimal_digits(n: u32) -> (digits: Vec<u8>)
    ensures
        digits@ == decimal(n as nat),
    decreases n,
{
    if n < 10 {
        let mut digits: Vec<u8> = Vec::new();
        digits.push(0x30u8 + n as u8);
        assert(digits@ =~= decimal(n as nat));
        digits
    } else {
        let mut digits = decimal_digits(n / 10);
        digits.push(0x30u8 + (n % 10) as u8);
        digits
    }
}

/// Returns the control sequence that moves the cursor up by `lines` lines.
pub fn cursor_up(lines: u32) -> (text: Vec<u8>)
    ensures
        text@ == cursor_up_text(lines as nat),
{
    let mut text: Vec<u8> = Vec::new();
    text.push(0x1bu8);
    text.push(0x5bu8);
    let mut digits = decimal_digits(lines);
    text.append(&mut digits);
    text.push(0x41u8);
    assert(text@ =~= cursor_up_text(lines as nat));
    text
}

/// Returns the bytes that show the buffer on a terminal and leave the
/// cursor where the next frame must start.
pub fn render_text(buf: &FrameBuffer) -> (text: Vec<u8>)
    requires
        buf.wf(),
    ensures
        text@ == frame_text(buf@),
{
    proof {
        buf.lemma_shape();
    }
    let height: u16 = buf.height();
    let mut text: Vec<u8> = Vec::new();
    let mut y: u16 = 0;
    while y < height
        invariant
            buf.wf(),
            height == buf.rows(),
            buf@.len() == height,
            y <= height,
            text@ == rows_text(buf@.take(y as int)),
        decreases height - y,
    {
        proof {
            assert(buf@.take(y as int + 1).drop_last() =~= buf@.take(y as int));
            assert(buf@.take(y as int + 1).last() == buf@[y as int]);
        }
        match buf.row(y) {
            Some(mut row) => {
                text.append(&mut row);
            },
            None => {},
        }
        text.push(0x0au8);
        y += 1;
    }
    assert(buf@.take(height as int) =~= buf@);
    let mut tail = cursor_up(height as u32 + 1);
    text.append(&mut tail);
    text
}

} // verus!
