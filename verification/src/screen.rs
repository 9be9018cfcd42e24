//! The frame shown at every tick: on a cleared surface the status block, four
//! lines of text, and over it the strip chart of the history.
use vstd::prelude::*;
use vstd::string::StringExecFns;
use crate::history::chart;
use crate::history::plot;
use crate::history::window;
use crate::surface::paint;
use crate::surface::HEIGHT;
use crate::surface::WIDTH;
use crate::text::draw_text;
use crate::text::text_fits;
use crate::text::text_region;

verus! {

/// Colour of the cleared surface.
pub const BACKGROUND: u32 = 0;

/// Colour of the status block.
pub const STATUS_COLOR: u32 = 0xffff_ffff;

/// Column of the left edge of the status block.
pub const STATUS_LEFT: usize = 4;

/// Row of the top edge of the status block.
pub const STATUS_TOP: usize = 4;

/// The status block: speed, factor, inverse factor and peak factor, each
/// already written out as a number, one labelled line for each.
pub open spec fn status_text(
    speed: Seq<char>,
    factor: Seq<char>,
    inverse: Seq<char>,
    peak: Seq<char>,
) -> Seq<char> {
    "v="@ + speed + "m/s\nlorentz = "@ + factor + "\n1/lorentz = "@ + inverse
        + "\npeak lorentz = "@ + peak
}

/// A buffer of `len` pixels, all of them `color`.
pub open spec fn blank(len: nat, color: u32) -> Seq<u32> {
    Seq::new(len, |i: int| color)
}

/// Top left corner of the status block.
pub open spec fn status_origin() -> (int, int) {
    (STATUS_LEFT as int, STATUS_TOP as int)
}

/// The frame for a status block and a history: the chart of the history's
/// newest levels over the status block, in its colour, over the background.
pub open spec fn frame_pixels(font: Seq<[u8; 8]>, status: Seq<char>, levels: Seq<u8>) -> Seq<u32> {
    chart(
        paint(
            blank((WIDTH * HEIGHT) as nat, BACKGROUND),
            text_region(font, status, status_origin(), status.len() as int),
            STATUS_COLOR,
        ),
        window(levels),
    )
}

/// Lays out the status block from its four numbers.
pub fn status_block(speed: &str, factor: &str, inverse: &str, peak: &str) -> (block: String)
    ensures
        block@ == status_text(speed@, factor@, inverse@, peak@),
{
    let mut block = String::from_str("v=");
    block.append(speed);
    block.append("m/s\nlorentz = ");
    block.append(factor);
    block.append("\n1/lorentz = ");
    block.append(inverse);
    block.append("\npeak lorentz = ");
    block.append(peak);
    block
}

/// Gives every pixel of the buffer the colour `color`.
pub fn clear(buffer: &mut [u32], color: u32)
    ensures
        final(buffer)@ == blank(old(buffer)@.len(), color),
{
    let count: usize = buffer.len();
    for i in 0usize..count
        invariant
            count == buffer@.len(),
            buffer@.len() == old(buffer)@.len(),
            forall|j: int| 0 <= j < i ==> buffer@[j] == color,
    {
        buffer[i] = color;
    }
    assert(buffer@ =~= blank(old(buffer)@.len(), color));
}

/// Composes the frame of one tick into the buffer of the surface, whatever
/// the buffer held before.
pub fn compose_frame(buffer: &mut [u32], font: &[[u8; 8]], status: &str, levels: &[u8])
    requires
        old(buffer)@.len() == WIDTH * HEIGHT,
        text_fits(old(buffer)@.len(), font@, status@, status_origin()),
    ensures
        final(buffer)@ == frame_pixels(font@, status@, levels@),
{
    clear(buffer, BACKGROUND);
    draw_text(buffer, font, status, (STATUS_LEFT, STATUS_TOP), STATUS_COLOR);
    plot(buffer, levels);
}

} // verus!
