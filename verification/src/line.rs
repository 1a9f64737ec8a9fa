//! The line rasteriser: an integer error-accumulator walk from one end point
//! to the other, described by the closed form of the pixels it visits.

use vstd::prelude::*;
use crate::arith::{div_nearest, lemma_nearest_is_div, nearest};
use crate::pixel::{plot, plotted};

verus! {

/// Distance between two coordinates on one axis.
pub open spec fn gap(from: int, to: int) -> int {
    if from <= to {
        to - from
    } else {
        from - to
    }
}

/// The coordinate `by` steps away from `from` in the direction of `to`.
pub open spec fn toward(from: int, to: int, by: int) -> int {
    if from < to {
        from + by
    } else {
        from - by
    }
}

/// Number of steps of the line from `(x0, y0)` to `(x1, y1)`: its extent on
/// the longer axis.  The line has one pixel more than it has steps.
pub open spec fn line_steps(x0: int, y0: int, x1: int, y1: int) -> int {
    if gap(x0, x1) >= gap(y0, y1) {
        gap(x0, x1)
    } else {
        gap(y0, y1)
    }
}

/// The `k`-th pixel of the line from `(x0, y0)` to `(x1, y1)`, for
/// `0 <= k <= line_steps`.  Along the longer axis it lies `k` pixels from the
/// start; along the shorter one it lies at the proportional distance, rounded
/// to the nearest pixel, a tie going away from the start.
pub open spec fn line_point(x0: int, y0: int, x1: int, y1: int, k: int) -> (int, int) {
    let n = line_steps(x0, y0, x1, y1);
    if n == 0 {
        (x0, y0)
    } else {
        (
            toward(x0, x1, div_nearest(k * gap(x0, x1), n)),
            toward(y0, y1, div_nearest(k * gap(y0, y1), n)),
        )
    }
}

/// The frame after the first `count` pixels of the line have been plotted in
/// order.
pub open spec fn line_prefix(
    frame: Seq<u8>,
    x0: int,
    y0: int,
    x1: int,
    y1: int,
    count: int,
    color: [u8; 4],
    window: (u32, u32),
) -> Seq<u8>
    decreases count,
{
    if count <= 0 {
        frame
    } else {
        let p = line_point(x0, y0, x1, y1, count - 1);
        plotted(line_prefix(frame, x0, y0, x1, y1, count - 1, color, window), p.0, p.1, color, window)
    }
}

/// The frame after the whole line, both end points included, has been
/// plotted.
pub open spec fn line(
    frame: Seq<u8>,
    x0: int,
    y0: int,
    x1: int,
    y1: int,
    color: [u8; 4],
    window: (u32, u32),
) -> Seq<u8> {
    line_prefix(frame, x0, y0, x1, y1, line_steps(x0, y0, x1, y1) + 1, color, window)
}

/// What the walk knows after `k` steps: it has moved `a` pixels along x and
/// `b` along y, both the rounded proportional distances, and `err` is the
/// accumulated error term.
spec fn walk_state(dx: int, dy: int, n: int, k: int, a: int, b: int, err: int) -> bool {
    &&& 0 <= dx <= n
    &&& 0 <= dy <= n
    &&& n == dx || n == dy
    &&& 0 <= k <= n
    &&& n == 0 ==> a == 0 && b == 0
    &&& n > 0 ==> nearest(k * dx, n, a) && nearest(k * dy, n, b)
    &&& err == (b + 1) * dx - (a + 1) * dy
}

/// A walk in a known state is inside the box of the line, its error term
/// is small, and it stands on the far end point exactly after the last step.
proof fn lemma_walk_bounds(dx: int, dy: int, n: int, k: int, a: int, b: int, err: int)
    requires
        walk_state(dx, dy, n, k, a, b, err),
    ensures
        0 <= a <= dx,
        0 <= b <= dy,
        -2 * n <= err <= 2 * n,
        (a == dx && b == dy) <==> k == n,
{
    if n > 0 {
        assert(0 <= a <= dx && 0 <= b <= dy && -2 * n <= (b + 1) * dx - (a + 1) * dy <= 2 * n && ((a
            == dx && b == dy) <==> k == n)) by (nonlinear_arith)
            requires
                0 <= dx <= n,
                0 <= dy <= n,
                n == dx || n == dy,
                n > 0,
                0 <= k <= n,
                2 * n * a <= 2 * (k * dx) + n < 2 * n * (a + 1),
                2 * n * b <= 2 * (k * dy) + n < 2 * n * (b + 1),
        ;
    }
}

/// One step of the error accumulator takes the walk from the `k`-th pixel of
/// the closed form to the next.
proof fn lemma_walk_step(dx: int, dy: int, n: int, k: int, a: int, b: int, err: int)
    requires
        walk_state(dx, dy, n, k, a, b, err),
        k < n,
    ensures
        ({
            let a2 = if 2 * err >= -dy {
                a + 1
            } else {
                a
            };
            let b2 = if 2 * err <= dx {
                b + 1
            } else {
                b
            };
            let err2 = err - (if 2 * err >= -dy {
                dy
            } else {
                0
            }) + (if 2 * err <= dx {
                dx
            } else {
                0
            });
            walk_state(dx, dy, n, k + 1, a2, b2, err2)
        }),
{
    let a2 = if 2 * err >= -dy {
        a + 1
    } else {
        a
    };
    let b2 = if 2 * err <= dx {
        b + 1
    } else {
        b
    };
    assert(nearest((k + 1) * dx, n, a2) && nearest((k + 1) * dy, n, b2)) by (nonlinear_arith)
        requires
            0 <= dx <= n,
            0 <= dy <= n,
            n == dx || n == dy,
            0 <= k < n,
            2 * n * a <= 2 * (k * dx) + n < 2 * n * (a + 1),
            2 * n * b <= 2 * (k * dy) + n < 2 * n * (b + 1),
            err == (b + 1) * dx - (a + 1) * dy,
            a2 == if 2 * err >= -dy {
                a + 1
            } else {
                a
            },
            b2 == if 2 * err <= dx {
                b + 1
            } else {
                b
            },
    ;
    assert((b + 2) * dx == (b + 1) * dx + dx) by (nonlinear_arith);
    assert((a + 2) * dy == (a + 1) * dy + dy) by (nonlinear_arith);
}

/// The first pixel of a line is its first end point and the last pixel is
/// its second.
pub proof fn lemma_line_ends(x0: int, y0: int, x1: int, y1: int)
    ensures
        line_point(x0, y0, x1, y1, 0) == (x0, y0),
        line_point(x0, y0, x1, y1, line_steps(x0, y0, x1, y1)) == (x1, y1),
{
    let n = line_steps(x0, y0, x1, y1);
    let dx = gap(x0, x1);
    let dy = gap(y0, y1);
    if n > 0 {
        assert(nearest(0 * dx, n, 0) && nearest(0 * dy, n, 0) && nearest(n * dx, n, dx) && nearest(
            n * dy,
            n,
            dy,
        )) by (nonlinear_arith)
            requires
                n > 0,
        ;
        lemma_nearest_is_div(0 * dx, n, 0);
        lemma_nearest_is_div(0 * dy, n, 0);
        lemma_nearest_is_div(n * dx, n, dx);
        lemma_nearest_is_div(n * dy, n, dy);
    }
}

/// Draws the line from `(x0, y0)` to `(x1, y1)`, both end points included.
/// Pixels outside the window are skipped; the walk goes on past them.
pub fn draw_line(
    x0: i32,
    y0: i32,
    x1: i32,
    y1: i32,
    color: [u8; 4],
    frame: &mut [u8],
    window: &(u32, u32),
)
    ensures
        final(frame)@ == line(
            old(frame)@,
            x0 as int,
            y0 as int,
            x1 as int,
            y1 as int,
            color,
            *window,
        ),
{
    let ghost start = frame@;
    let ghost n = line_steps(x0 as int, y0 as int, x1 as int, y1 as int);
    let mut x: i64 = x0 as i64;
    let mut y: i64 = y0 as i64;
    let dx: i64 = if x0 < x1 {
        x1 as i64 - x0 as i64
    } else {
        x0 as i64 - x1 as i64
    };
    let sx: i64 = if x0 < x1 {
        1
    } else {
        -1
    };
    let dy: i64 = if y0 < y1 {
        y0 as i64 - y1 as i64
    } else {
        y1 as i64 - y0 as i64
    };
    let sy: i64 = if y0 < y1 {
        1
    } else {
        -1
    };
    let mut err: i64 = dx + dy;
    let ghost mut k: int = 0;
    let ghost mut a: int = 0;
    let ghost mut b: int = 0;
    proof {
        assert(nearest(0, n, 0) <==> n > 0) by (nonlinear_arith);
        assert(0 * dx == 0 && 0 * (-dy) == 0);
    }
    loop
        invariant_except_break
            walk_state(dx as int, -dy as int, n, k, a, b, err as int),
            frame@ == line_prefix(
                start,
                x0 as int,
                y0 as int,
                x1 as int,
                y1 as int,
                k,
                color,
                *window,
            ),
        invariant
            n == line_steps(x0 as int, y0 as int, x1 as int, y1 as int),
            dx == gap(x0 as int, x1 as int),
            -dy == gap(y0 as int, y1 as int),
            sx == if x0 < x1 { 1i64 } else { -1i64 },
            sy == if y0 < y1 { 1i64 } else { -1i64 },
            x == toward(x0 as int, x1 as int, a),
            y == toward(y0 as int, y1 as int, b),
        ensures
            frame@ == line(start, x0 as int, y0 as int, x1 as int, y1 as int, color, *window),
        decreases n - k,
    {
        proof {
            lemma_walk_bounds(dx as int, -dy as int, n, k, a, b, err as int);
            if n > 0 {
                lemma_nearest_is_div(k * dx, n, a);
                lemma_nearest_is_div(k * (-dy), n, b);
            }
        }
        plot(x, y, color, frame, window);
        if x == x1 as i64 && y == y1 as i64 {
            break ;
        }
        let e2: i64 = 2 * err;
        proof {
            let a2 = if e2 >= dy { a + 1 } else { a };
            let b2 = if e2 <= dx { b + 1 } else { b };
            let err2 = err - (if e2 >= dy { -dy } else { 0 }) + (if e2 <= dx { dx as int } else { 0 });
            lemma_walk_step(dx as int, -dy as int, n, k, a, b, err as int);
            lemma_walk_bounds(dx as int, -dy as int, n, k + 1, a2, b2, err2);
        }
        if e2 >= dy {
            err += dy;
            x += sx;
            proof {
                a = a + 1;
            }
        }
        if e2 <= dx {
            err += dx;
            y += sy;
            proof {
                b = b + 1;
            }
        }
        proof {
            k = k + 1;
        }
    }
}

} // verus!
