//! Straight lines on the surface.
//!
//! A line is drawn one pixel per step along its longer axis. The pixel of
//! step `k` sits on the shorter axis at the whole number nearest to the ideal
//! line, a tie going to the far side from the start.
use vstd::prelude::*;
use vstd::arithmetic::div_mod::lemma_fundamental_div_mod;
use vstd::arithmetic::div_mod::lemma_fundamental_div_mod_converse;
use crate::surface::lemma_paint_empty;
use crate::surface::lemma_paint_insert;
use crate::surface::paint;
use crate::surface::pixel_index;
use crate::surface::point;
use crate::surface::set_pixel;
use crate::surface::WIDTH;

verus! {

/// Distance between two coordinates.
pub open spec fn gap(a: int, b: int) -> int {
    if a <= b {
        b - a
    } else {
        a - b
    }
}

/// The coordinate `steps` away from `from` in the direction of `to`.
pub open spec fn toward(from: int, to: int, steps: int) -> int {
    if from <= to {
        from + steps
    } else {
        from - steps
    }
}

/// The whole number nearest to `k * minor / major`, a half rounded up.
pub open spec fn nearest(k: int, minor: int, major: int) -> int {
    if major <= 0 {
        0
    } else {
        (2 * k * minor + major) / (2 * major)
    }
}

/// Steps from `start` to `end`: the longer of the two axis distances.
pub open spec fn line_span(start: (int, int), end: (int, int)) -> int {
    let dx = gap(start.0, end.0);
    let dy = gap(start.1, end.1);
    if dx >= dy {
        dx
    } else {
        dy
    }
}

/// The pixel of step `k` on the line from `start` to `end`.
pub open spec fn line_point(start: (int, int), end: (int, int), k: int) -> (int, int) {
    let dx = gap(start.0, end.0);
    let dy = gap(start.1, end.1);
    if dx >= dy {
        (toward(start.0, end.0, k), toward(start.1, end.1, nearest(k, dy, dx)))
    } else {
        (toward(start.0, end.0, nearest(k, dx, dy)), toward(start.1, end.1, k))
    }
}

/// Buffer position of the pixel of step `k`.
pub open spec fn line_index(start: (int, int), end: (int, int), k: int) -> int {
    pixel_index(line_point(start, end, k).0, line_point(start, end, k).1)
}

/// Buffer positions of the first `count` pixels of the line.
pub open spec fn line_region(start: (int, int), end: (int, int), count: int) -> Set<int> {
    Set::new(|i: int| exists|k: int| 0 <= k < count && #[trigger] line_index(start, end, k) == i)
}

/// Whether the line can be drawn into a buffer of `len` pixels: every one of
/// its pixels lies in the buffer.
pub open spec fn line_fits(len: nat, start: (int, int), end: (int, int)) -> bool {
    forall|k: int|
        0 <= k <= line_span(start, end) ==> 0 <= #[trigger] line_index(start, end, k) < len
}

/// How the nearest whole number moves from step `k` to step `k + 1`, read off
/// the running error `e` of the incremental form: the longer axis always
/// advances, the shorter one exactly when twice the error does not exceed
/// `major`.
pub proof fn lemma_nearest_step(k: int, minor: int, major: int)
    requires
        0 <= minor <= major,
        0 < major,
        0 <= k < major,
    ensures
        ({
            let r = nearest(k, minor, major);
            let e = (r + 1) * major - (k + 1) * minor;
            &&& 0 <= r <= minor
            &&& -major < 2 * e <= 3 * major
            &&& 2 * e >= -minor
            &&& nearest(k + 1, minor, major) == if 2 * e <= major {
                r + 1
            } else {
                r
            }
            &&& nearest(k + 1, minor, major) <= minor
        }),
{
    let r = nearest(k, minor, major);
    let n = 2 * k * minor + major;
    let d = 2 * major;
    let rem = n % d;
    lemma_fundamental_div_mod(n, d);
    assert(n == d * r + rem);
    assert(0 <= rem < d);
    let p = k * minor;
    let q = r * major;
    assert(2 * k * minor == 2 * p) by (nonlinear_arith)
        requires
            p == k * minor,
    ;
    assert(d * r == 2 * q) by (nonlinear_arith)
        requires
            d == 2 * major,
            q == r * major,
    ;
    assert((r + 1) * major == q + major) by (nonlinear_arith)
        requires
            q == r * major,
    ;
    assert((k + 1) * minor == p + minor) by (nonlinear_arith)
        requires
            p == k * minor,
    ;
    assert(2 * (k + 1) * minor == 2 * p + 2 * minor) by (nonlinear_arith)
        requires
            p == k * minor,
    ;
    assert(0 <= p) by (nonlinear_arith)
        requires
            p == k * minor,
            0 <= k,
            0 <= minor,
    ;
    assert(p <= k * major) by (nonlinear_arith)
        requires
            p == k * minor,
            0 <= k,
            minor <= major,
    ;
    // 0 <= r: the dividend is not negative.
    assert(0 <= r) by (nonlinear_arith)
        requires
            2 * p + major == 2 * q + rem,
            q == r * major,
            0 <= p,
            0 < major,
            rem < 2 * major,
    ;
    // r <= minor: k < major bounds the dividend.
    assert(r <= minor) by (nonlinear_arith)
        requires
            2 * p + major == 2 * q + rem,
            q == r * major,
            p == k * minor,
            0 <= k < major,
            0 <= minor,
            0 < major,
            0 <= rem,
    ;
    let e = (r + 1) * major - (k + 1) * minor;
    assert(2 * e == 3 * major - 2 * minor - rem);
    let next = 2 * (k + 1) * minor + major;
    if rem + 2 * minor >= 2 * major {
        assert(next == d * (r + 1) + (rem + 2 * minor - 2 * major)) by (nonlinear_arith)
            requires
                next == 2 * p + 2 * minor + major,
                2 * p + major == d * r + rem,
                d == 2 * major,
        ;
        lemma_fundamental_div_mod_converse(next, d, r + 1, rem + 2 * minor - 2 * major);
        assert(r + 1 <= minor) by (nonlinear_arith)
            requires
                2 * p + major == 2 * q + rem,
                q == r * major,
                p == k * minor,
                0 <= k < major,
                0 <= minor <= major,
                0 < major,
                rem + 2 * minor >= 2 * major,
        ;
    } else {
        assert(next == d * r + (rem + 2 * minor));
        lemma_fundamental_div_mod_converse(next, d, r, rem + 2 * minor);
    }
}

/// The first pixel of a line is its start and the last one its end.
pub proof fn lemma_line_ends(start: (int, int), end: (int, int))
    ensures
        line_point(start, end, 0) == start,
        line_point(start, end, line_span(start, end)) == end,
{
    let dx = gap(start.0, end.0);
    let dy = gap(start.1, end.1);
    let major = line_span(start, end);
    let minor = if dx >= dy {
        dy
    } else {
        dx
    };
    if major > 0 {
        assert(2 * 0 * minor + major == 0 * (2 * major) + major) by (nonlinear_arith);
        lemma_fundamental_div_mod_converse(2 * 0 * minor + major, 2 * major, 0, major);
        assert(2 * major * minor + major == minor * (2 * major) + major) by (nonlinear_arith);
        lemma_fundamental_div_mod_converse(
            2 * major * minor + major,
            2 * major,
            minor,
            major,
        );
    }
}

/// No pixel of a line lies outside the rectangle that its two ends span.
pub proof fn lemma_line_within(start: (int, int), end: (int, int), k: int)
    requires
        0 <= k <= line_span(start, end),
    ensures
        start.0 <= line_point(start, end, k).0 <= end.0 || end.0 <= line_point(start, end, k).0
            <= start.0,
        start.1 <= line_point(start, end, k).1 <= end.1 || end.1 <= line_point(start, end, k).1
            <= start.1,
{
    let dx = gap(start.0, end.0);
    let dy = gap(start.1, end.1);
    if k == line_span(start, end) {
        lemma_line_ends(start, end);
    } else if dx >= dy {
        lemma_nearest_step(k, dy, dx);
    } else {
        lemma_nearest_step(k, dx, dy);
    }
}

/// A line between two pixels of the surface's columns, both in rows that the
/// buffer holds in full, can be drawn.
pub proof fn lemma_line_fits(len: nat, start: (int, int), end: (int, int), rows: int)
    requires
        0 <= start.0 < WIDTH,
        0 <= end.0 < WIDTH,
        0 <= start.1 < rows,
        0 <= end.1 < rows,
        rows * WIDTH <= len,
    ensures
        line_fits(len, start, end),
{
    assert forall|k: int| 0 <= k <= line_span(start, end) implies 0 <= #[trigger] line_index(
        start,
        end,
        k,
    ) < len by {
        lemma_line_within(start, end, k);
    }
}

/// A line has no holes: from one pixel to the next, the coordinate of the
/// longer axis moves by one and that of the shorter axis by one or not at
/// all, either of them towards the end.
pub proof fn lemma_line_connected(start: (int, int), end: (int, int), k: int)
    requires
        0 <= k < line_span(start, end),
    ensures
        ({
            let here = line_point(start, end, k);
            let next = line_point(start, end, k + 1);
            let along = gap(here.0, next.0);
            let across = gap(here.1, next.1);
            &&& along <= 1 && across <= 1
            &&& if gap(start.0, end.0) >= gap(start.1, end.1) {
                along == 1
            } else {
                across == 1
            }
            &&& gap(next.0, end.0) == gap(here.0, end.0) - along
            &&& gap(next.1, end.1) == gap(here.1, end.1) - across
        }),
{
    let dx = gap(start.0, end.0);
    let dy = gap(start.1, end.1);
    if dx >= dy {
        lemma_nearest_step(k, dy, dx);
    } else {
        lemma_nearest_step(k, dx, dy);
    }
}

/// The first `k + 1` pixels of a line are the first `k` and the pixel of
/// step `k`.
proof fn lemma_line_region_next(start: (int, int), end: (int, int), k: int)
    requires
        0 <= k,
    ensures
        line_region(start, end, k + 1) == line_region(start, end, k).insert(
            line_index(start, end, k),
        ),
{
    let before = line_region(start, end, k);
    let after = line_region(start, end, k + 1);
    let here = line_index(start, end, k);
    assert forall|i: int| before.insert(here).contains(i) implies after.contains(i) by {
        if i == here {
            assert(line_index(start, end, k) == i);
        } else {
            let j = choose|j: int| 0 <= j < k && #[trigger] line_index(start, end, j) == i;
            assert(0 <= j < k + 1);
        }
    }
    assert(after =~= before.insert(here));
}

/// Draws the straight line from `start` to `end`, both ends included, in
/// `color`: one pixel for every step along the longer axis, each as close to
/// the ideal line as a pixel can be.
pub fn line(buffer: &mut [u32], start: (usize, usize), end: (usize, usize), color: u32)
    requires
        line_fits(old(buffer)@.len(), point(start), point(end)),
    ensures
        final(buffer)@ == paint(
            old(buffer)@,
            line_region(point(start), point(end), line_span(point(start), point(end)) + 1),
            color,
        ),
{
    let dx: usize = if start.0 <= end.0 {
        end.0 - start.0
    } else {
        start.0 - end.0
    };
    let dy: usize = if start.1 <= end.1 {
        end.1 - start.1
    } else {
        start.1 - end.1
    };
    let mut x: usize = start.0;
    let mut y: usize = start.1;
    let mut error: i128 = dx as i128 - dy as i128;
    let ghost from = point(start);
    let ghost to = point(end);
    let ghost span = line_span(from, to);
    let ghost mut k: int = 0;
    let ghost mut nx: int = 0;
    let ghost mut ny: int = 0;
    proof {
        assert(line_region(from, to, 0) =~= Set::empty());
        lemma_paint_empty(old(buffer)@, color);
        lemma_line_ends(from, to);
        assert((ny + 1) * dx - (nx + 1) * dy == dx - dy) by (nonlinear_arith)
            requires
                nx == 0,
                ny == 0,
        ;
    }
    loop
        invariant_except_break
            0 <= k <= span,
            0 <= nx <= dx,
            0 <= ny <= dy,
            dx >= dy ==> nx == k && ny == nearest(k, dy as int, dx as int),
            dx < dy ==> ny == k && nx == nearest(k, dx as int, dy as int),
            x == toward(from.0, to.0, nx),
            y == toward(from.1, to.1, ny),
            error == (ny + 1) * dx - (nx + 1) * dy,
            buffer@ == paint(old(buffer)@, line_region(from, to, k), color),
        invariant
            from == point(start),
            to == point(end),
            span == line_span(from, to),
            dx == gap(from.0, to.0),
            dy == gap(from.1, to.1),
            buffer@.len() == old(buffer)@.len(),
            line_fits(old(buffer)@.len(), from, to),
        ensures
            buffer@ == paint(old(buffer)@, line_region(from, to, span + 1), color),
        decreases span - k,
    {
        proof {
            assert((x as int, y as int) == line_point(from, to, k));
            lemma_line_region_next(from, to, k);
            lemma_paint_insert(
                old(buffer)@,
                line_region(from, to, k),
                line_index(from, to, k),
                color,
            );
        }
        set_pixel(buffer, x, y, color);
        if x == end.0 && y == end.1 {
            break ;
        }
        proof {
            lemma_line_ends(from, to);
            if dx >= dy {
                lemma_nearest_step(k, dy as int, dx as int);
            } else {
                lemma_nearest_step(k, dx as int, dy as int);
            }
            assert((ny + 1) * dx - (nx + 2) * dy == error - dy) by (nonlinear_arith)
                requires
                    error == (ny + 1) * dx - (nx + 1) * dy,
            ;
            assert((ny + 2) * dx - (nx + 1) * dy == error + dx) by (nonlinear_arith)
                requires
                    error == (ny + 1) * dx - (nx + 1) * dy,
            ;
            assert((ny + 2) * dx - (nx + 2) * dy == error + dx - dy) by (nonlinear_arith)
                requires
                    error == (ny + 1) * dx - (nx + 1) * dy,
            ;
        }
        // Short of the end, the longer axis has steps left, and the shorter
        // one steps only while it has.
        let e2: i128 = 2 * error;
        if e2 >= -(dy as i128) {
            error = error - dy as i128;
            x = if start.0 < end.0 {
                x + 1
            } else {
                x - 1
            };
            proof {
                nx = nx + 1;
            }
        }
        if e2 <= dx as i128 {
            error = error + dx as i128;
            y = if start.1 < end.1 {
                y + 1
            } else {
                y - 1
            };
            proof {
                ny = ny + 1;
            }
        }
        proof {
            k = k + 1;
        }
    }
}

} // verus!
