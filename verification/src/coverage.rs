//! Which pixels a filled disc covers: the walk along the octant, seen as a
//! set of points, and the two circles between which that set lies.

use vstd::prelude::*;
use crate::disc::{disc, disc_from, disc_rows, span};
use crate::pixel::{fits_window, in_bounds, lemma_plot_effect, plotted, same_pixel, shows};

verus! {

/// Whether one step of the walk, at `(x, y)`, fills the point that lies
/// `(a, b)` from the centre.
pub open spec fn rows_cover(x: int, y: int, a: int, b: int) -> bool {
    ||| (b == -y || b == y) && -x <= a <= x
    ||| (b == -x || b == x) && -y <= a <= y
}

/// Whether the walk that goes on from the state `(x, y, err)` fills the point
/// that lies `(a, b)` from the centre.
pub open spec fn walk_covers(x: int, y: int, err: int, a: int, b: int) -> bool
    decreases x - y + 2,
{
    if x < y {
        false
    } else {
        let y1 = y + 1;
        let e1 = err + 1 + 2 * y1;
        rows_cover(x, y, a, b) || if 2 * (e1 - x) + 1 > 0 {
            walk_covers(x - 1, y1, e1 + 1 - 2 * (x - 1), a, b)
        } else {
            walk_covers(x, y1, e1, a, b)
        }
    }
}

/// Whether the disc of this radius fills the point that lies `(a, b)` from
/// its centre.
pub open spec fn disc_covers(radius: int, a: int, b: int) -> bool {
    radius > 0 && walk_covers(radius, 0, 0, a, b)
}

/// What the walk knows at the state `(x, y, err)`: where it is, that the
/// error term follows from the position, and that the position is close to
/// the circle from both sides.
pub open spec fn on_track(radius: int, x: int, y: int, err: int) -> bool {
    &&& 0 <= y <= x <= radius
    &&& 1 <= x
    &&& err == x * x + y * y - radius * radius - 2 * x + 2 * y + 2 * radius
    &&& -x <= err <= 3 * radius - 2 * x + 2 * y
}

/// What filling one span in an opaque colour does to any one pixel of the
/// window.
pub proof fn lemma_span_effect(
    frame: Seq<u8>,
    x_start: int,
    x_end: int,
    y: int,
    color: [u8; 4],
    window: (u32, u32),
    px: int,
    py: int,
)
    requires
        color[3] == 255,
        fits_window(frame, window),
        in_bounds(px, py, window),
    ensures
        fits_window(span(frame, x_start, x_end, y, color, window), window),
        py == y && x_start <= px <= x_end ==> shows(
            span(frame, x_start, x_end, y, color, window),
            px,
            py,
            window.0 as int,
            color,
        ),
        !(py == y && x_start <= px <= x_end) ==> same_pixel(
            span(frame, x_start, x_end, y, color, window),
            frame,
            px,
            py,
            window.0 as int,
        ),
    decreases x_end - x_start + 1,
{
    if x_end >= x_start {
        let before = span(frame, x_start, x_end - 1, y, color, window);
        lemma_span_effect(frame, x_start, x_end - 1, y, color, window, px, py);
        lemma_plot_effect(before, x_end, y, color, window, px, py);
    }
}

/// What the four spans of one step do to any one pixel of the window.
pub proof fn lemma_rows_effect(
    frame: Seq<u8>,
    cx: int,
    cy: int,
    x: int,
    y: int,
    color: [u8; 4],
    window: (u32, u32),
    px: int,
    py: int,
)
    requires
        color[3] == 255,
        fits_window(frame, window),
        in_bounds(px, py, window),
    ensures
        fits_window(disc_rows(frame, cx, cy, x, y, color, window), window),
        rows_cover(x, y, px - cx, py - cy) ==> shows(
            disc_rows(frame, cx, cy, x, y, color, window),
            px,
            py,
            window.0 as int,
            color,
        ),
        !rows_cover(x, y, px - cx, py - cy) ==> same_pixel(
            disc_rows(frame, cx, cy, x, y, color, window),
            frame,
            px,
            py,
            window.0 as int,
        ),
{
    let f1 = span(frame, cx - x, cx + x, cy - y, color, window);
    let f2 = span(f1, cx - x, cx + x, cy + y, color, window);
    let f3 = span(f2, cx - y, cx + y, cy - x, color, window);
    lemma_span_effect(frame, cx - x, cx + x, cy - y, color, window, px, py);
    lemma_span_effect(f1, cx - x, cx + x, cy + y, color, window, px, py);
    lemma_span_effect(f2, cx - y, cx + y, cy - x, color, window, px, py);
    lemma_span_effect(f3, cx - y, cx + y, cy + x, color, window, px, py);
}

/// What the rest of the walk does to any one pixel of the window: a pixel
/// that the walk covers shows the colour, any other is as before.
pub proof fn lemma_walk_effect(
    frame: Seq<u8>,
    cx: int,
    cy: int,
    x: int,
    y: int,
    err: int,
    color: [u8; 4],
    window: (u32, u32),
    px: int,
    py: int,
)
    requires
        color[3] == 255,
        fits_window(frame, window),
        in_bounds(px, py, window),
    ensures
        fits_window(disc_from(frame, cx, cy, x, y, err, color, window), window),
        walk_covers(x, y, err, px - cx, py - cy) ==> shows(
            disc_from(frame, cx, cy, x, y, err, color, window),
            px,
            py,
            window.0 as int,
            color,
        ),
        !walk_covers(x, y, err, px - cx, py - cy) ==> same_pixel(
            disc_from(frame, cx, cy, x, y, err, color, window),
            frame,
            px,
            py,
            window.0 as int,
        ),
    decreases x - y + 2,
{
    if x >= y {
        let filled = disc_rows(frame, cx, cy, x, y, color, window);
        lemma_rows_effect(frame, cx, cy, x, y, color, window, px, py);
        let y1 = y + 1;
        let e1 = err + 1 + 2 * y1;
        if 2 * (e1 - x) + 1 > 0 {
            lemma_walk_effect(filled, cx, cy, x - 1, y1, e1 + 1 - 2 * (x - 1), color, window, px, py);
        } else {
            lemma_walk_effect(filled, cx, cy, x, y1, e1, color, window, px, py);
        }
    }
}

/// One step keeps the walk on track, as long as it has not come to its end.
proof fn lemma_step_on_track(radius: int, x: int, y: int, err: int)
    requires
        on_track(radius, x, y, err),
    ensures
        ({
            let y1 = y + 1;
            let e1 = err + 1 + 2 * y1;
            if 2 * (e1 - x) + 1 > 0 {
                x - 1 >= y1 ==> on_track(radius, x - 1, y1, e1 + 1 - 2 * (x - 1))
            } else {
                x >= y1 ==> on_track(radius, x, y1, e1)
            }
        }),
{
    assert((x - 1) * (x - 1) == x * x - 2 * x + 1) by (nonlinear_arith);
    assert((y + 1) * (y + 1) == y * y + 2 * y + 1) by (nonlinear_arith);
}

/// A point that the walk covers lies no farther from the centre than the
/// state at which it is filled.
proof fn lemma_walk_inside(radius: int, x: int, y: int, err: int, a: int, b: int)
    requires
        on_track(radius, x, y, err),
        walk_covers(x, y, err, a, b),
    ensures
        a * a + b * b <= radius * radius + radius,
    decreases x - y + 2,
{
    if rows_cover(x, y, a, b) {
        assert(a * a + b * b <= x * x + y * y) by (nonlinear_arith)
            requires
                rows_cover(x, y, a, b),
                0 <= y <= x,
        ;
    } else {
        lemma_step_on_track(radius, x, y, err);
        let y1 = y + 1;
        let e1 = err + 1 + 2 * y1;
        if 2 * (e1 - x) + 1 > 0 {
            assert(x - 1 >= y1) by {
                if x - 1 < y1 {
                    assert(!walk_covers(x - 1, y1, e1 + 1 - 2 * (x - 1), a, b));
                }
            }
            lemma_walk_inside(radius, x - 1, y1, e1 + 1 - 2 * (x - 1), a, b);
        } else {
            assert(x >= y1) by {
                if x < y1 {
                    assert(!walk_covers(x, y1, e1, a, b));
                }
            }
            lemma_walk_inside(radius, x, y1, e1, a, b);
        }
    }
}

/// The walk covers every point of the inner circle whose row it has not yet
/// passed.
proof fn lemma_walk_reaches(radius: int, x: int, y: int, err: int, a: int, b: int)
    requires
        on_track(radius, x, y, err),
        a * a + b * b <= (radius - 1) * (radius - 1),
        y <= b <= x || y <= -b <= x,
    ensures
        walk_covers(x, y, err, a, b),
    decreases x - y + 2,
{
    let y1 = y + 1;
    let e1 = err + 1 + 2 * y1;
    let beta = if b < 0 { -b } else { b };
    if beta == y {
        assert(-x <= a <= x) by (nonlinear_arith)
            requires
                a * a + b * b <= (radius - 1) * (radius - 1),
                b == y || b == -y,
                err == x * x + y * y - radius * radius - 2 * x + 2 * y + 2 * radius,
                -x <= err,
                0 <= y <= x,
                1 <= x,
        ;
    } else if beta == x && 2 * (e1 - x) + 1 > 0 {
        assert(-y <= a <= y) by (nonlinear_arith)
            requires
                a * a + b * b <= (radius - 1) * (radius - 1),
                b == x || b == -x,
                err == x * x + y * y - radius * radius - 2 * x + 2 * y + 2 * radius,
                e1 == err + 3 + 2 * y,
                e1 >= x,
                0 <= y < x,
                x <= radius,
        ;
    } else {
        lemma_step_on_track(radius, x, y, err);
        if 2 * (e1 - x) + 1 > 0 {
            lemma_walk_reaches(radius, x - 1, y1, e1 + 1 - 2 * (x - 1), a, b);
        } else {
            lemma_walk_reaches(radius, x, y1, e1, a, b);
        }
    }
}

/// The set of points that a disc covers lies between two circles: it holds
/// every point within `radius - 1` of the centre and no point farther than
/// `radius + 1` from it.
pub proof fn lemma_disc_between_circles(radius: int, a: int, b: int)
    requires
        radius >= 1,
    ensures
        a * a + b * b <= (radius - 1) * (radius - 1) ==> disc_covers(radius, a, b),
        disc_covers(radius, a, b) ==> a * a + b * b <= radius * radius + radius,
        radius * radius + radius < (radius + 1) * (radius + 1),
{
    assert(radius * radius + radius < (radius + 1) * (radius + 1)) by (nonlinear_arith)
        requires
            radius >= 1,
    ;
    assert(on_track(radius, radius, 0, 0)) by (nonlinear_arith)
        requires
            radius >= 1,
    ;
    if a * a + b * b <= (radius - 1) * (radius - 1) {
        assert(-radius <= b <= radius) by (nonlinear_arith)
            requires
                a * a + b * b <= (radius - 1) * (radius - 1),
                radius >= 1,
        ;
        lemma_walk_reaches(radius, radius, 0, 0, a, b);
    }
    if disc_covers(radius, a, b) {
        lemma_walk_inside(radius, radius, 0, 0, a, b);
    }
}

/// Filling a disc in an opaque colour, in a buffer that fits the window,
/// gives every pixel that the disc covers that colour and leaves every other
/// pixel as it was.  Every pixel of the window within `radius - 1` of the
/// centre is covered, and none farther than `radius + 1` from it: the painted
/// pixels of a disc inside the window are as many as the grid points of a
/// set that lies between those two circles.
pub proof fn lemma_opaque_disc(
    frame: Seq<u8>,
    cx: int,
    cy: int,
    radius: int,
    color: [u8; 4],
    window: (u32, u32),
    px: int,
    py: int,
)
    requires
        color[3] == 255,
        radius >= 1,
        fits_window(frame, window),
        in_bounds(px, py, window),
    ensures
        fits_window(disc(frame, cx, cy, radius, color, window), window),
        disc_covers(radius, px - cx, py - cy) ==> shows(
            disc(frame, cx, cy, radius, color, window),
            px,
            py,
            window.0 as int,
            color,
        ),
        !disc_covers(radius, px - cx, py - cy) ==> same_pixel(
            disc(frame, cx, cy, radius, color, window),
            frame,
            px,
            py,
            window.0 as int,
        ),
        (px - cx) * (px - cx) + (py - cy) * (py - cy) <= (radius - 1) * (radius - 1)
            ==> disc_covers(radius, px - cx, py - cy),
        (px - cx) * (px - cx) + (py - cy) * (py - cy) > (radius + 1) * (radius + 1)
            ==> !disc_covers(radius, px - cx, py - cy),
{
    lemma_walk_effect(frame, cx, cy, radius, 0, 0, color, window, px, py);
    lemma_disc_between_circles(radius, px - cx, py - cy);
}

} // verus!
