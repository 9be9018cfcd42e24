//! The rolling history of display levels and the strip chart drawn from it.
//!
//! Every tick appends one level. Nothing is ever taken out; the chart shows
//! the newest `WINDOW` levels, oldest on the left, one column each.
use vstd::prelude::*;
use vstd::slice::slice_subrange;
use crate::surface::pixel_index;
use crate::surface::set_pixel;
use crate::surface::HEIGHT;
use crate::surface::WIDTH;

verus! {

/// Levels that the chart shows: one for every column of the surface.
pub const WINDOW: usize = WIDTH;

/// Colour of the chart pixel for level zero. A higher level adds four times
/// itself.
pub const TRACE_BASE: u32 = 0xffff_0000;

/// The level that a tick appends: the one that arrived, or zero where none
/// did.
pub open spec fn level_of(arrived: Option<u8>) -> u8 {
    match arrived {
        Some(level) => level,
        None => 0,
    }
}

/// The part of a history that the chart shows: its last `WINDOW` levels, or
/// all of them while there are fewer.
pub open spec fn window(levels: Seq<u8>) -> Seq<u8> {
    if levels.len() <= WINDOW {
        levels
    } else {
        levels.subrange(levels.len() - WINDOW, levels.len() as int)
    }
}

/// Colour of the chart pixel for `level`.
pub open spec fn trace_color(level: u8) -> u32 {
    (TRACE_BASE + 4 * level) as u32
}

/// The buffer `pixels` with the chart of `shown` drawn over it. Column `j`
/// holds one pixel for `shown[j]`, `shown[j]` rows above the bottom row of the
/// surface; a level too high for the surface has none.
pub open spec fn chart(pixels: Seq<u32>, shown: Seq<u8>) -> Seq<u32> {
    Seq::new(
        pixels.len(),
        |i: int|
            {
                let column = i % (WIDTH as int);
                let row = i / (WIDTH as int);
                if column < shown.len() && row + shown[column] == HEIGHT - 1 {
                    trace_color(shown[column])
                } else {
                    pixels[i]
                }
            },
    )
}

/// Whether the chart of `shown` can be drawn into a buffer of `len` pixels:
/// every one of its pixels lies in the buffer.
pub open spec fn chart_fits(len: nat, shown: Seq<u8>) -> bool {
    forall|j: int|
        0 <= j < shown.len() && j < WIDTH && #[trigger] shown[j] <= HEIGHT - 1 ==> pixel_index(
            j,
            HEIGHT - 1 - shown[j],
        ) < len
}

/// The levels recorded so far, oldest first.
pub struct History {
    levels: Vec<u8>,
}

impl View for History {
    type V = Seq<u8>;

    closed spec fn view(&self) -> Seq<u8> {
        self.levels@
    }
}

impl History {
    /// A history without a level.
    pub fn new() -> (history: History)
        ensures
            history@ == Seq::<u8>::empty(),
    {
        History { levels: Vec::new() }
    }

    /// Appends the level of one tick: `arrived`, or zero where the tick had
    /// none.
    pub fn record(&mut self, arrived: Option<u8>)
        ensures
            final(self)@ == old(self)@.push(level_of(arrived)),
            final(self)@.len() == old(self)@.len() + 1,
    {
        let level: u8 = match arrived {
            Some(level) => level,
            None => 0,
        };
        self.levels.push(level);
    }

    /// Number of levels recorded.
    pub fn len(&self) -> (count: usize)
        ensures
            count == self@.len(),
    {
        self.levels.len()
    }

    /// All levels, oldest first.
    pub fn levels(&self) -> (all: &[u8])
        ensures
            all@ == self@,
    {
        self.levels.as_slice()
    }

    /// The levels that the chart shows.
    pub fn recent(&self) -> (shown: &[u8])
        ensures
            shown@ == window(self@),
    {
        recent(self.levels.as_slice())
    }
}

/// The last `WINDOW` of `levels`, or all of them while there are fewer.
pub fn recent(levels: &[u8]) -> (shown: &[u8])
    ensures
        shown@ == window(levels@),
{
    let count: usize = levels.len();
    if count <= WINDOW {
        levels
    } else {
        slice_subrange(levels, count - WINDOW, count)
    }
}

/// The chart of the first `count + 1` levels is that of the first `count`
/// with the pixel of level `count` set, where it has one.
proof fn lemma_chart_next(pixels: Seq<u32>, shown: Seq<u8>, count: int)
    requires
        0 <= count < shown.len(),
        count < WIDTH,
        chart_fits(pixels.len(), shown),
    ensures
        chart(pixels, shown.take(count + 1)) == if shown[count] <= HEIGHT - 1 {
            chart(pixels, shown.take(count)).update(
                pixel_index(count, HEIGHT - 1 - shown[count]),
                trace_color(shown[count]),
            )
        } else {
            chart(pixels, shown.take(count))
        },
{
    let before = chart(pixels, shown.take(count));
    let after = chart(pixels, shown.take(count + 1));
    let level = shown[count];
    if level <= HEIGHT - 1 {
        let here = pixel_index(count, HEIGHT - 1 - level);
        assert(after =~= before.update(here, trace_color(level)));
    } else {
        assert(after =~= before);
    }
}

/// The chart of no level is the buffer as it was.
proof fn lemma_chart_none(pixels: Seq<u32>, shown: Seq<u8>)
    ensures
        chart(pixels, shown.take(0)) == pixels,
{
    assert(chart(pixels, shown.take(0)) =~= pixels);
}

/// Draws the chart of a history over the buffer: one pixel for each of the
/// newest `WINDOW` levels, the oldest of them in the leftmost column. A level
/// of zero sits in the bottom row and each step up is one row; a level too
/// high for the surface draws nothing.
pub fn plot(buffer: &mut [u32], levels: &[u8])
    requires
        chart_fits(old(buffer)@.len(), window(levels@)),
    ensures
        final(buffer)@ == chart(old(buffer)@, window(levels@)),
{
    let shown: &[u8] = recent(levels);
    let count: usize = shown.len();
    proof {
        lemma_chart_none(old(buffer)@, shown@);
    }
    for column in 0usize..count
        invariant
            count == shown@.len(),
            shown@.len() <= WINDOW,
            shown@ == window(levels@),
            buffer@.len() == old(buffer)@.len(),
            chart_fits(old(buffer)@.len(), shown@),
            buffer@ == chart(old(buffer)@, shown@.take(column as int)),
    {
        let level: u8 = shown[column];
        proof {
            lemma_chart_next(old(buffer)@, shown@, column as int);
        }
        if level as usize <= HEIGHT - 1 {
            let shade: u32 = (level as u32) << 2;
            assert(shade == 4 * level) by (bit_vector)
                requires
                    shade == (level as u32) << 2,
            ;
            set_pixel(buffer, column, HEIGHT - 1 - level as usize, TRACE_BASE + shade);
        }
    }
    proof {
        assert(shown@.take(shown@.len() as int) =~= shown@);
    }
}

} // verus!
