//! Text on the surface, set in a bitmap font of eight by eight pixels.
//!
//! A font is a table of glyphs found by character code. A glyph is eight
//! bytes, one for each row from the top; bit `col` of a row, counted from the
//! lowest, inks column `col` from the left. A character without an entry in
//! the table has no glyph and leaves the surface untouched.
use vstd::prelude::*;
use crate::surface::lemma_paint_empty;
use crate::surface::lemma_paint_insert;
use crate::surface::lemma_paint_union;
use crate::surface::paint;
use crate::surface::pixel_index;
use crate::surface::point;
use crate::surface::set_pixel;
use crate::surface::WIDTH;

verus! {

/// Rows, and columns, of a glyph.
pub const GLYPH_SIZE: usize = 8;

/// Distance from one character cell to the next, along a line and between
/// lines.
pub const ADVANCE: usize = 9;

/// Whether the glyph inks column `col` of its row `row`.
pub open spec fn ink(glyph: [u8; 8], row: int, col: int) -> bool {
    &&& 0 <= row < 8
    &&& 0 <= col < 8
    &&& (glyph[row] >> (col as u8)) & 1u8 != 0
}

/// Buffer positions inked by the first `cells` cells of a glyph, counted row
/// by row, with the glyph's top left corner at `origin`.
spec fn glyph_region_upto(glyph: [u8; 8], origin: (int, int), cells: int) -> Set<int> {
    Set::new(
        |i: int|
            exists|row: int, col: int|
                #[trigger] ink(glyph, row, col) && row * 8 + col < cells && pixel_index(
                    origin.0 + col,
                    origin.1 + row,
                ) == i,
    )
}

/// Buffer positions inked by a glyph with its top left corner at `origin`.
pub open spec fn glyph_region(glyph: [u8; 8], origin: (int, int)) -> Set<int> {
    Set::new(
        |i: int|
            exists|row: int, col: int|
                #[trigger] ink(glyph, row, col) && pixel_index(origin.0 + col, origin.1 + row)
                    == i,
    )
}

/// Buffer positions inked by a character: those of its glyph, or none where
/// the font has no glyph for it.
pub open spec fn char_region(font: Seq<[u8; 8]>, symbol: char, origin: (int, int)) -> Set<int> {
    if (symbol as int) < font.len() {
        glyph_region(font[symbol as int], origin)
    } else {
        Set::empty()
    }
}

/// Whether the character can be drawn at `origin` into a buffer of `len`
/// pixels: every position that it inks lies in the buffer.
pub open spec fn char_fits(len: nat, font: Seq<[u8; 8]>, symbol: char, origin: (int, int)) -> bool {
    forall|i: int| char_region(font, symbol, origin).contains(i) ==> 0 <= i < len
}

/// Adding one cell to the counted cells adds its position where it is inked.
proof fn lemma_glyph_region_next(glyph: [u8; 8], origin: (int, int), row: int, col: int)
    requires
        0 <= row < 8,
        0 <= col < 8,
    ensures
        glyph_region_upto(glyph, origin, row * 8 + col + 1) == if ink(glyph, row, col) {
            glyph_region_upto(glyph, origin, row * 8 + col).insert(
                pixel_index(origin.0 + col, origin.1 + row),
            )
        } else {
            glyph_region_upto(glyph, origin, row * 8 + col)
        },
{
    let cells = row * 8 + col;
    let before = glyph_region_upto(glyph, origin, cells);
    let after = glyph_region_upto(glyph, origin, cells + 1);
    let here = pixel_index(origin.0 + col, origin.1 + row);
    if ink(glyph, row, col) {
        // The one cell that `after` counts and `before` does not.
        assert(after.contains(here));
        assert(after =~= before.insert(here));
    } else {
        assert(after =~= before);
    }
}

/// All sixty-four cells make the whole glyph.
proof fn lemma_glyph_region_whole(glyph: [u8; 8], origin: (int, int))
    ensures
        glyph_region_upto(glyph, origin, 64) == glyph_region(glyph, origin),
        glyph_region_upto(glyph, origin, 0) == Set::<int>::empty(),
{
    assert(glyph_region_upto(glyph, origin, 64) =~= glyph_region(glyph, origin));
    assert(glyph_region_upto(glyph, origin, 0) =~= Set::<int>::empty());
}

/// Draws the glyph of `symbol` in `color` with its top left corner at
/// `top_left`. A character that the font has no glyph for draws nothing.
pub fn draw_char(
    buffer: &mut [u32],
    font: &[[u8; 8]],
    symbol: char,
    top_left: (usize, usize),
    color: u32,
)
    requires
        char_fits(old(buffer)@.len(), font@, symbol, point(top_left)),
    ensures
        final(buffer)@ == paint(
            old(buffer)@,
            char_region(font@, symbol, point(top_left)),
            color,
        ),
{
    let code: usize = symbol as usize;
    if code >= font.len() {
        proof {
            lemma_paint_empty(old(buffer)@, color);
        }
        return ;
    }
    let glyph: [u8; 8] = font[code];
    let ghost origin = point(top_left);
    proof {
        assert(char_region(font@, symbol, origin) == glyph_region(glyph, origin));
        lemma_glyph_region_whole(glyph, origin);
        lemma_paint_empty(old(buffer)@, color);
    }
    for row in 0usize..GLYPH_SIZE
        invariant
            origin == point(top_left),
            buffer@.len() == old(buffer)@.len(),
            forall|i: int| glyph_region(glyph, origin).contains(i) ==> 0 <= i < old(buffer)@.len(),
            buffer@ == paint(old(buffer)@, glyph_region_upto(glyph, origin, row * 8), color),
    {
        let bits: u8 = glyph[row];
        for col in 0usize..GLYPH_SIZE
            invariant
                row < 8,
                bits == glyph[row as int],
                origin == point(top_left),
                buffer@.len() == old(buffer)@.len(),
                forall|i: int|
                    glyph_region(glyph, origin).contains(i) ==> 0 <= i < old(buffer)@.len(),
                buffer@ == paint(
                    old(buffer)@,
                    glyph_region_upto(glyph, origin, row * 8 + col),
                    color,
                ),
        {
            proof {
                lemma_glyph_region_next(glyph, origin, row as int, col as int);
            }
            if (bits >> (col as u8)) & 1u8 != 0 {
                proof {
                    let here = pixel_index(origin.0 + col, origin.1 + row);
                    assert(ink(glyph, row as int, col as int));
                    assert(glyph_region(glyph, origin).contains(here));
                    lemma_paint_insert(
                        old(buffer)@,
                        glyph_region_upto(glyph, origin, row * 8 + col),
                        here,
                        color,
                    );
                    vstd::slice::axiom_spec_len(buffer);
                }
                set_pixel(buffer, top_left.0 + col, top_left.1 + row, color);
            }
        }
    }
}

/// Tells whether the character can be drawn at `top_left` into a buffer of
/// `len` pixels.
pub fn can_draw_char(len: usize, font: &[[u8; 8]], symbol: char, top_left: (usize, usize)) -> (ok:
    bool)
    ensures
        ok == char_fits(len as nat, font@, symbol, point(top_left)),
{
    let code: usize = symbol as usize;
    if code >= font.len() {
        return true;
    }
    let glyph: [u8; 8] = font[code];
    let ghost origin = point(top_left);
    for row in 0usize..GLYPH_SIZE
        invariant
            origin == point(top_left),
            char_region(font@, symbol, origin) == glyph_region(glyph, origin),
            forall|r: int, c: int|
                #[trigger] ink(glyph, r, c) && r * 8 + c < row * 8 ==> pixel_index(
                    origin.0 + c,
                    origin.1 + r,
                ) < len,
    {
        let bits: u8 = glyph[row];
        for col in 0usize..GLYPH_SIZE
            invariant
                row < 8,
                bits == glyph[row as int],
                origin == point(top_left),
                char_region(font@, symbol, origin) == glyph_region(glyph, origin),
                forall|r: int, c: int|
                    #[trigger] ink(glyph, r, c) && r * 8 + c < row * 8 + col ==> pixel_index(
                        origin.0 + c,
                        origin.1 + r,
                    ) < len,
        {
            if (bits >> (col as u8)) & 1u8 != 0 {
                // A machine coordinate times the width is far from the end of
                // the wide type.
                assert((top_left.1 + row) * WIDTH <= u128::MAX);
                let position: u128 = (top_left.1 as u128 + row as u128) * (WIDTH as u128)
                    + top_left.0 as u128 + col as u128;
                if position >= len as u128 {
                    proof {
                        assert(ink(glyph, row as int, col as int));
                        assert(glyph_region(glyph, origin).contains(position as int));
                    }
                    return false;
                }
            }
        }
    }
    proof {
        assert forall|i: int| glyph_region(glyph, origin).contains(i) implies 0 <= i < len by {
            let (r, c) = choose|r: int, c: int|
                #[trigger] ink(glyph, r, c) && pixel_index(origin.0 + c, origin.1 + r) == i;
            assert(r * 8 + c < 64);
        }
    }
    true
}

/// Top left corner of the cell of the character at position `k` of `text`,
/// for a text that starts at `origin`: every character moves the cell one
/// advance to the right, and a line feed takes it back to the left edge, one
/// advance further down.
pub open spec fn pen(text: Seq<char>, origin: (int, int), k: int) -> (int, int)
    decreases k,
{
    if k <= 0 {
        origin
    } else {
        let before = pen(text, origin, k - 1);
        if text[k - 1] == '\n' {
            (origin.0, before.1 + ADVANCE)
        } else {
            (before.0 + ADVANCE, before.1)
        }
    }
}

/// Buffer positions inked by the character at position `k` of `text`: none
/// for a line feed.
pub open spec fn stamp(font: Seq<[u8; 8]>, text: Seq<char>, origin: (int, int), k: int) -> Set<
    int,
> {
    if text[k] == '\n' {
        Set::empty()
    } else {
        char_region(font, text[k], pen(text, origin, k))
    }
}

/// Buffer positions inked by the first `count` characters of `text`.
pub open spec fn text_region(
    font: Seq<[u8; 8]>,
    text: Seq<char>,
    origin: (int, int),
    count: int,
) -> Set<int> {
    Set::new(
        |i: int| exists|k: int| 0 <= k < count && #[trigger] stamp(font, text, origin, k).contains(i),
    )
}

/// Whether `text` can be drawn at `origin` into a buffer of `len` pixels:
/// every character that is no line feed can be drawn in its cell, and no cell
/// corner, that past the last character included, leaves the range of the
/// machine's coordinates.
pub open spec fn text_fits(len: nat, font: Seq<[u8; 8]>, text: Seq<char>, origin: (int, int)) -> bool {
    &&& forall|k: int|
        0 <= k <= text.len() ==> (#[trigger] pen(text, origin, k)).0 <= usize::MAX && pen(
            text,
            origin,
            k,
        ).1 <= usize::MAX
    &&& forall|k: int|
        0 <= k < text.len() && text[k] != '\n' ==> char_fits(
            len,
            font,
            text[k],
            #[trigger] pen(text, origin, k),
        )
}

/// The first `k + 1` characters ink what the first `k` ink and what the
/// character at `k` inks.
proof fn lemma_text_region_next(font: Seq<[u8; 8]>, text: Seq<char>, origin: (int, int), k: int)
    requires
        0 <= k,
    ensures
        text_region(font, text, origin, k + 1) == text_region(font, text, origin, k).union(
            stamp(font, text, origin, k),
        ),
        text_region(font, text, origin, 0) == Set::<int>::empty(),
{
    let before = text_region(font, text, origin, k);
    let after = text_region(font, text, origin, k + 1);
    let here = stamp(font, text, origin, k);
    assert forall|i: int| before.union(here).contains(i) implies after.contains(i) by {
        if here.contains(i) {
            assert(stamp(font, text, origin, k).contains(i));
        } else {
            let j = choose|j: int| 0 <= j < k && #[trigger] stamp(font, text, origin, j).contains(i);
            assert(0 <= j < k + 1);
        }
    }
    assert(after =~= before.union(here));
    assert(text_region(font, text, origin, 0) =~= Set::<int>::empty());
}

/// Draws `text` in `color`, the first character with its top left corner at
/// `top_left`, each following one an advance to the right. A line feed draws
/// nothing and starts a new line, an advance further down.
pub fn draw_text(
    buffer: &mut [u32],
    font: &[[u8; 8]],
    text: &str,
    top_left: (usize, usize),
    color: u32,
)
    requires
        text_fits(old(buffer)@.len(), font@, text@, point(top_left)),
    ensures
        final(buffer)@ == paint(
            old(buffer)@,
            text_region(font@, text@, point(top_left), text@.len() as int),
            color,
        ),
{
    let mut x: usize = top_left.0;
    let mut y: usize = top_left.1;
    let ghost origin = point(top_left);
    proof {
        lemma_text_region_next(font@, text@, origin, 0);
        lemma_paint_empty(old(buffer)@, color);
    }
    for symbol in it: text.chars()
        invariant
            it.seq() == text@,
            origin == point(top_left),
            buffer@.len() == old(buffer)@.len(),
            text_fits(old(buffer)@.len(), font@, text@, origin),
            (x as int, y as int) == pen(text@, origin, it.index() as int),
            buffer@ == paint(
                old(buffer)@,
                text_region(font@, text@, origin, it.index() as int),
                color,
            ),
    {
        let ghost k = it.index() as int;
        proof {
            lemma_text_region_next(font@, text@, origin, k);
            lemma_paint_union(
                old(buffer)@,
                text_region(font@, text@, origin, k),
                stamp(font@, text@, origin, k),
                color,
            );
            assert(pen(text@, origin, k + 1).0 <= usize::MAX);
        }
        if symbol == '\n' {
            x = top_left.0;
            y += ADVANCE;
            proof {
                lemma_paint_empty(buffer@, color);
            }
        } else {
            draw_char(buffer, font, symbol, (x, y), color);
            x += ADVANCE;
        }
    }
}

/// Tells whether `text` can be drawn at `top_left` into a buffer of `len`
/// pixels.
pub fn can_draw_text(len: usize, font: &[[u8; 8]], text: &str, top_left: (usize, usize)) -> (ok: bool)
    ensures
        ok == text_fits(len as nat, font@, text@, point(top_left)),
{
    let mut x: usize = top_left.0;
    let mut y: usize = top_left.1;
    let ghost origin = point(top_left);
    for symbol in it: text.chars()
        invariant
            it.seq() == text@,
            origin == point(top_left),
            (x as int, y as int) == pen(text@, origin, it.index() as int),
            forall|k: int|
                0 <= k <= it.index() ==> (#[trigger] pen(text@, origin, k)).0 <= usize::MAX && pen(
                    text@,
                    origin,
                    k,
                ).1 <= usize::MAX,
            forall|k: int|
                0 <= k < it.index() && text@[k] != '\n' ==> char_fits(
                    len as nat,
                    font@,
                    text@[k],
                    #[trigger] pen(text@, origin, k),
                ),
    {
        let ghost here = it.index() as int;
        if symbol == '\n' {
            if y > usize::MAX - ADVANCE {
                proof {
                    assert(pen(text@, origin, here + 1).1 > usize::MAX);
                }
                return false;
            }
            x = top_left.0;
            y += ADVANCE;
        } else {
            if !can_draw_char(len, font, symbol, (x, y)) {
                proof {
                    assert(!char_fits(len as nat, font@, text@[here], pen(text@, origin, here)));
                }
                return false;
            }
            if x > usize::MAX - ADVANCE {
                proof {
                    assert(pen(text@, origin, here + 1).0 > usize::MAX);
                }
                return false;
            }
            x += ADVANCE;
        }
        proof {
            assert(pen(text@, origin, here + 1) == (x as int, y as int));
        }
    }
    true
}

} // verus!
