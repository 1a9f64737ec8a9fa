//! The disc rasteriser: a midpoint walk along one octant of the circle, each
//! step filling four horizontal spans.

use vstd::prelude::*;
use crate::pixel::{plot, plotted};

verus! {

/// The frame after the pixels `x_start ..= x_end` of row `y` have been
/// plotted from left to right.
pub open spec fn span(
    frame: Seq<u8>,
    x_start: int,
    x_end: int,
    y: int,
    color: [u8; 4],
    window: (u32, u32),
) -> Seq<u8>
    decreases x_end - x_start + 1,
{
    if x_end < x_start {
        frame
    } else {
        plotted(span(frame, x_start, x_end - 1, y, color, window), x_end, y, color, window)
    }
}

/// The frame after the four spans of one step of the walk have been filled:
/// the rows `y` below and above the centre at half-width `x`, then the rows
/// `x` below and above it at half-width `y`.
pub open spec fn disc_rows(
    frame: Seq<u8>,
    cx: int,
    cy: int,
    x: int,
    y: int,
    color: [u8; 4],
    window: (u32, u32),
) -> Seq<u8> {
    let f1 = span(frame, cx - x, cx + x, cy - y, color, window);
    let f2 = span(f1, cx - x, cx + x, cy + y, color, window);
    let f3 = span(f2, cx - y, cx + y, cy - x, color, window);
    span(f3, cx - y, cx + y, cy + x, color, window)
}

/// The frame after the walk has gone on from the state `(x, y, err)` until
/// `x` has dropped below `y`.
pub open spec fn disc_from(
    frame: Seq<u8>,
    cx: int,
    cy: int,
    x: int,
    y: int,
    err: int,
    color: [u8; 4],
    window: (u32, u32),
) -> Seq<u8>
    decreases x - y + 2,
{
    if x < y {
        frame
    } else {
        let filled = disc_rows(frame, cx, cy, x, y, color, window);
        let y1 = y + 1;
        let e1 = err + 1 + 2 * y1;
        if 2 * (e1 - x) + 1 > 0 {
            disc_from(filled, cx, cy, x - 1, y1, e1 + 1 - 2 * (x - 1), color, window)
        } else {
            disc_from(filled, cx, cy, x, y1, e1, color, window)
        }
    }
}

/// The frame after the disc around `(cx, cy)` has been filled.  A disc with
/// no positive radius leaves the frame as it is.
pub open spec fn disc(
    frame: Seq<u8>,
    cx: int,
    cy: int,
    radius: int,
    color: [u8; 4],
    window: (u32, u32),
) -> Seq<u8> {
    if radius <= 0 {
        frame
    } else {
        disc_from(frame, cx, cy, radius, 0, 0, color, window)
    }
}

/// Nothing of a row outside the window is drawn.
pub proof fn lemma_span_outside_row(
    frame: Seq<u8>,
    x_start: int,
    x_end: int,
    y: int,
    color: [u8; 4],
    window: (u32, u32),
)
    requires
        y < 0 || y >= window.1,
    ensures
        span(frame, x_start, x_end, y, color, window) == frame,
    decreases x_end - x_start + 1,
{
    if x_end >= x_start {
        lemma_span_outside_row(frame, x_start, x_end - 1, y, color, window);
    }
}

/// A span draws what its part inside the window draws.
pub proof fn lemma_span_clipped(
    frame: Seq<u8>,
    x_start: int,
    x_end: int,
    y: int,
    color: [u8; 4],
    window: (u32, u32),
)
    ensures
        span(frame, x_start, x_end, y, color, window) == span(
            frame,
            if x_start < 0 { 0 } else { x_start },
            if x_end >= window.0 { window.0 - 1 } else { x_end },
            y,
            color,
            window,
        ),
    decreases x_end - x_start + 1,
{
    if x_end >= x_start {
        lemma_span_clipped(frame, x_start, x_end - 1, y, color, window);
    }
}

/// Whether the disc lies wholly off one side of the window: its centre is
/// farther beyond an edge than its radius.
pub open spec fn disc_off_window(cx: int, cy: int, radius: int, window: (u32, u32)) -> bool {
    ||| cx + radius < 0
    ||| cx - radius >= window.0
    ||| cy + radius < 0
    ||| cy - radius >= window.1
}

/// No step of the walk of a disc that lies off the window paints anything.
proof fn lemma_disc_from_outside(
    frame: Seq<u8>,
    cx: int,
    cy: int,
    radius: int,
    x: int,
    y: int,
    err: int,
    color: [u8; 4],
    window: (u32, u32),
)
    requires
        disc_off_window(cx, cy, radius, window),
        0 <= y,
        x <= radius,
    ensures
        disc_from(frame, cx, cy, x, y, err, color, window) == frame,
    decreases x - y + 2,
{
    if x >= y {
        lemma_span_clipped(frame, cx - x, cx + x, cy - y, color, window);
        lemma_span_clipped(frame, cx - x, cx + x, cy + y, color, window);
        lemma_span_clipped(frame, cx - y, cx + y, cy - x, color, window);
        lemma_span_clipped(frame, cx - y, cx + y, cy + x, color, window);
        if cy + radius < 0 || cy - radius >= window.1 {
            lemma_span_outside_row(frame, cx - x, cx + x, cy - y, color, window);
            lemma_span_outside_row(frame, cx - x, cx + x, cy + y, color, window);
            lemma_span_outside_row(frame, cx - y, cx + y, cy - x, color, window);
            lemma_span_outside_row(frame, cx - y, cx + y, cy + x, color, window);
        }
        assert(disc_rows(frame, cx, cy, x, y, color, window) == frame);
        let y1 = y + 1;
        let e1 = err + 1 + 2 * y1;
        if 2 * (e1 - x) + 1 > 0 {
            lemma_disc_from_outside(
                frame,
                cx,
                cy,
                radius,
                x - 1,
                y1,
                e1 + 1 - 2 * (x - 1),
                color,
                window,
            );
        } else {
            lemma_disc_from_outside(frame, cx, cy, radius, x, y1, e1, color, window);
        }
    }
}

/// A disc whose centre lies outside the window by more than its radius
/// paints nothing.
pub proof fn lemma_disc_outside(
    frame: Seq<u8>,
    cx: int,
    cy: int,
    radius: int,
    color: [u8; 4],
    window: (u32, u32),
)
    requires
        disc_off_window(cx, cy, radius, window),
    ensures
        disc(frame, cx, cy, radius, color, window) == frame,
{
    if radius > 0 {
        lemma_disc_from_outside(frame, cx, cy, radius, radius, 0, 0, color, window);
    }
}

/// Fills the pixels `x_start ..= x_end` of row `y`, as far as they lie inside
/// the window.
pub fn fill_span(
    x_start: i64,
    x_end: i64,
    y: i64,
    color: [u8; 4],
    frame: &mut [u8],
    window: &(u32, u32),
)
    ensures
        final(frame)@ == span(
            old(frame)@,
            x_start as int,
            x_end as int,
            y as int,
            color,
            *window,
        ),
{
    let ghost start = frame@;
    proof {
        lemma_span_clipped(start, x_start as int, x_end as int, y as int, color, *window);
    }
    if y < 0 || y >= window.1 as i64 {
        proof {
            lemma_span_outside_row(start, x_start as int, x_end as int, y as int, color, *window);
        }
        return ;
    }
    let first: i64 = if x_start < 0 {
        0
    } else {
        x_start
    };
    let last: i64 = if x_end >= window.0 as i64 {
        window.0 as i64 - 1
    } else {
        x_end
    };
    let mut x: i64 = first;
    while x <= last
        invariant
            first <= x,
            last < window.0,
            x <= last + 1 || x == first,
            frame@ == span(start, first as int, x - 1, y as int, color, *window),
        decreases last - x + 1,
    {
        plot(x, y, color, frame, window);
        x += 1;
    }
}

/// Draws a horizontal line from `(x_start, y)` to `(x_end, y)`.  A row outside
/// the window is skipped, and so is every pixel of the row outside it.
pub fn draw_horizontal_line(
    x_start: i32,
    x_end: i32,
    y: i32,
    color: [u8; 4],
    frame: &mut [u8],
    window: &(u32, u32),
)
    ensures
        final(frame)@ == span(
            old(frame)@,
            x_start as int,
            x_end as int,
            y as int,
            color,
            *window,
        ),
{
    fill_span(x_start as i64, x_end as i64, y as i64, color, frame, window);
}

/// Draws a filled circle with the midpoint circle algorithm.
pub fn draw_circle(
    cx: i32,
    cy: i32,
    radius: i32,
    color: [u8; 4],
    frame: &mut [u8],
    window: &(u32, u32),
)
    ensures
        final(frame)@ == disc(
            old(frame)@,
            cx as int,
            cy as int,
            radius as int,
            color,
            *window,
        ),
{
    if radius <= 0 {
        return ;
    }
    let ghost start = frame@;
    let cx: i64 = cx as i64;
    let cy: i64 = cy as i64;
    let mut x: i64 = radius as i64;
    let mut y: i64 = 0;
    let mut err: i128 = 0;
    while x >= y
        invariant
            0 <= y,
            0 <= x <= radius,
            y == 0 ==> x >= 1,
            y <= x + 2,
            -0x8000_0000 <= cx <= 0x7fff_ffff,
            -0x8000_0000 <= cy <= 0x7fff_ffff,
            -0x4_0000_0000 * (y + 1) <= err <= 0x4_0000_0000 * (y + 1),
            disc_from(frame@, cx as int, cy as int, x as int, y as int, err as int, color, *window)
                == disc(start, cx as int, cy as int, radius as int, color, *window),
        decreases x - y + 2,
    {
        fill_span(cx - x, cx + x, cy - y, color, frame, window);
        fill_span(cx - x, cx + x, cy + y, color, frame, window);
        fill_span(cx - y, cx + y, cy - x, color, frame, window);
        fill_span(cx - y, cx + y, cy + x, color, frame, window);
        y += 1;
        err += 1 + 2 * y as i128;
        if 2 * (err - x as i128) + 1 > 0 {
            x -= 1;
            err += 1 - 2 * x as i128;
        }
    }
}

} // verus!
