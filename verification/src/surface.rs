//! The drawing surface: a row-major buffer of packed colours, `WIDTH` pixels
//! to a row.
use vstd::prelude::*;

verus! {

/// Pixels in one row of the surface.
pub const WIDTH: usize = 200;

/// Rows of the surface.
pub const HEIGHT: usize = 200;

/// A pixel's column and row as mathematical integers.
pub open spec fn point(p: (usize, usize)) -> (int, int) {
    (p.0 as int, p.1 as int)
}

/// Position in the buffer of the pixel in column `x` of row `y`.
pub open spec fn pixel_index(x: int, y: int) -> int {
    y * WIDTH + x
}

/// The buffer `pixels` after every position in `region` has taken `color`.
pub open spec fn paint(pixels: Seq<u32>, region: Set<int>, color: u32) -> Seq<u32> {
    Seq::new(
        pixels.len(),
        |i: int|
            if region.contains(i) {
                color
            } else {
                pixels[i]
            },
    )
}

/// Painting a region and then one more position is painting the region with
/// that position added.
pub proof fn lemma_paint_insert(pixels: Seq<u32>, region: Set<int>, i: int, color: u32)
    requires
        0 <= i < pixels.len(),
    ensures
        paint(pixels, region, color).update(i, color) == paint(pixels, region.insert(i), color),
{
    assert(paint(pixels, region, color).update(i, color) =~= paint(
        pixels,
        region.insert(i),
        color,
    ));
}

/// Painting one region and then another is painting their union.
pub proof fn lemma_paint_union(pixels: Seq<u32>, first: Set<int>, second: Set<int>, color: u32)
    ensures
        paint(paint(pixels, first, color), second, color) == paint(
            pixels,
            first.union(second),
            color,
        ),
{
    assert(paint(paint(pixels, first, color), second, color) =~= paint(
        pixels,
        first.union(second),
        color,
    ));
}

/// Painting nothing changes nothing.
pub proof fn lemma_paint_empty(pixels: Seq<u32>, color: u32)
    ensures
        paint(pixels, Set::empty(), color) == pixels,
{
    assert(paint(pixels, Set::empty(), color) =~= pixels);
}

/// Gives the pixel in column `x` of row `y` the colour `color` and leaves
/// every other pixel as it was.
pub fn set_pixel(buffer: &mut [u32], x: usize, y: usize, color: u32)
    requires
        pixel_index(x as int, y as int) < old(buffer)@.len(),
    ensures
        final(buffer)@ == old(buffer)@.update(pixel_index(x as int, y as int), color),
{
    assert(buffer@.len() <= usize::MAX) by {
        vstd::slice::axiom_spec_len(buffer);
    }
    buffer[y * WIDTH + x] = color;
}

} // verus!
