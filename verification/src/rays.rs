//! The shadow-ray caster: a fan of rays from every light, each cut short at
//! the first sample point that falls inside an occluding disc.

use vstd::prelude::*;
use crate::arith::{div_round, lemma_div_round_between, lemma_div_round_error, rounded_quotient};
use crate::circle::Circle;
use crate::line::{draw_line, line};
use crate::occlusion::{
    find_ray_intersection,
    lemma_no_occluders_no_hit,
    no_occluders,
    occluders_placeable,
    ray_hit,
};
use crate::trig::{cos_fixed, cosine, lemma_unit_circle, sin_fixed, sine, UNIT};

verus! {

/// Number of rays in the fan of one light: one for every whole degree.
pub const RAY_COUNT: u32 = 360;

/// Colour of the rays: a yellow that lets two fifths of itself through.
pub const RAY_COLOR: [u8; 4] = [255, 255, 0, 100];

/// A coordinate brought into the range that a disc's coordinates have.
pub open spec fn saturated(v: int) -> int {
    if v < i32::MIN {
        i32::MIN as int
    } else if v > i32::MAX {
        i32::MAX as int
    } else {
        v
    }
}

/// One coordinate of the far end of a ray: `length` pixels from `c` along a
/// direction whose component on this axis is `dir / UNIT`, rounded to the
/// nearest pixel, a tie going away from zero.
pub open spec fn ray_end_axis(c: int, length: int, dir: int) -> int {
    saturated(div_round(c * UNIT + length * dir, UNIT as int))
}

/// Length of every ray in a window of this size: its longer side.
pub open spec fn ray_length(window: (u32, u32)) -> int {
    if window.0 >= window.1 {
        window.0 as int
    } else {
        window.1 as int
    }
}

/// The far end of ray number `deg` of a light at `(cx, cy)`, when nothing is
/// in its way.
pub open spec fn ray_end(cx: int, cy: int, length: int, deg: u32) -> (int, int) {
    (ray_end_axis(cx, length, cos_fixed(deg)), ray_end_axis(cy, length, sin_fixed(deg)))
}

/// The point up to which ray number `deg` of a light at `(cx, cy)` is drawn:
/// where it is first stopped, or else its far end.
pub open spec fn ray_target(
    objects: Seq<Circle>,
    cx: int,
    cy: int,
    deg: u32,
    cursor_pos: (i64, i64),
    window: (u32, u32),
) -> (int, int) {
    let e = ray_end(cx, cy, ray_length(window), deg);
    match ray_hit(objects, cx, cy, e.0, e.1, cursor_pos, window) {
        Some(p) => p,
        None => e,
    }
}

/// The frame after the first `count` rays of a light at `(cx, cy)` have been
/// drawn, in the order of their angles.
pub open spec fn rays_prefix(
    frame: Seq<u8>,
    objects: Seq<Circle>,
    cx: int,
    cy: int,
    count: u32,
    cursor_pos: (i64, i64),
    window: (u32, u32),
) -> Seq<u8>
    decreases count,
{
    if count == 0 {
        frame
    } else {
        let deg = (count - 1) as u32;
        let t = ray_target(objects, cx, cy, deg, cursor_pos, window);
        line(
            rays_prefix(frame, objects, cx, cy, deg, cursor_pos, window),
            cx,
            cy,
            t.0,
            t.1,
            RAY_COLOR,
            window,
        )
    }
}

/// The frame after the whole fan of a light at `(cx, cy)` has been drawn.
pub open spec fn rays(
    frame: Seq<u8>,
    objects: Seq<Circle>,
    cx: int,
    cy: int,
    cursor_pos: (i64, i64),
    window: (u32, u32),
) -> Seq<u8> {
    rays_prefix(frame, objects, cx, cy, RAY_COUNT, cursor_pos, window)
}

/// The absolute value.
pub open spec fn magnitude(v: int) -> int {
    if v < 0 {
        -v
    } else {
        v
    }
}

/// A square is bounded by the square of a bound on the magnitude, and from
/// below by what the nearby value `a` leaves of it.
proof fn lemma_square_near(p: int, a: int, u: int)
    requires
        -u <= p - a <= u,
    ensures
        p * p <= a * a + 2 * u * magnitude(a) + u * u,
        p * p >= a * a - 2 * u * magnitude(a),
{
    let m = magnitude(a);
    assert(p * p <= a * a + 2 * u * m + u * u && p * p >= a * a - 2 * u * m) by (nonlinear_arith)
        requires
            -u <= p - a <= u,
            m == if a < 0 { -a } else { a },
    ;
}

/// A point whose doubled, scaled-up offsets `2 * UNIT * (u, v)` lie within
/// `UNIT` of `2 * length * (c, s)`, where `(c, s) / UNIT` is a unit vector up
/// to rounding, is within one pixel of the distance `length`.
proof fn lemma_rounded_point_distance(length: int, c: int, s: int, u: int, v: int)
    requires
        1 <= length <= 0x1_0000_0000,
        UNIT * UNIT - 2 * UNIT <= c * c + s * s <= UNIT * UNIT + 2 * UNIT,
        -UNIT <= 2 * UNIT * u - 2 * length * c <= UNIT,
        -UNIT <= 2 * UNIT * v - 2 * length * s <= UNIT,
    ensures
        (length - 1) * (length - 1) <= u * u + v * v <= (length + 1) * (length + 1),
{
    let unit: int = UNIT as int;
    let a = 2 * length * c;
    let b = 2 * length * s;
    let p = 2 * unit * u;
    let q = 2 * unit * v;
    let k = c * c + s * s;
    let t = magnitude(c) + magnitude(s);
    let ll = length * length;
    lemma_square_near(p, a, unit);
    lemma_square_near(q, b, unit);
    assert(t * t <= 2 * k) by (nonlinear_arith)
        requires
            k == c * c + s * s,
            t == (if c < 0 { -c } else { c }) + (if s < 0 { -s } else { s }),
    ;
    assert(50 * t <= 71 * unit) by (nonlinear_arith)
        requires
            t * t <= 2 * (unit * unit + 2 * unit),
            unit == 0x100_0000_0000,
            t >= 0,
    ;
    assert(magnitude(a) + magnitude(b) == 2 * length * t) by (nonlinear_arith)
        requires
            a == 2 * length * c,
            b == 2 * length * s,
            length >= 0,
            t == magnitude(c) + magnitude(s),
    ;
    assert(50 * (length * t) <= 71 * unit * length) by (nonlinear_arith)
        requires
            50 * t <= 71 * unit,
            length >= 0,
    ;
    assert(a * a + b * b == 4 * ll * k) by (nonlinear_arith)
        requires
            a == 2 * length * c,
            b == 2 * length * s,
            k == c * c + s * s,
            ll == length * length,
    ;
    assert(ll * (unit * unit - 2 * unit) <= ll * k <= ll * (unit * unit + 2 * unit))
        by (nonlinear_arith)
        requires
            unit * unit - 2 * unit <= k <= unit * unit + 2 * unit,
            ll >= 0,
    ;
    assert(length <= ll <= 0x1_0000_0000 * length) by (nonlinear_arith)
        requires
            ll == length * length,
            1 <= length <= 0x1_0000_0000,
    ;
    let d2 = u * u + v * v;
    let near = p * p + q * q;
    let far = a * a + b * b;
    let spread = magnitude(a) + magnitude(b);
    let lt = length * t;
    let llk = ll * k;
    assert(near == 0x4_0000_0000_0000_0000_0000 * d2) by (nonlinear_arith)
        requires
            near == p * p + q * q,
            p == 2 * unit * u,
            q == 2 * unit * v,
            d2 == u * u + v * v,
            unit == 0x100_0000_0000,
    ;
    assert(2 * unit * magnitude(a) + 2 * unit * magnitude(b) == 0x200_0000_0000 * spread)
        by (nonlinear_arith)
        requires
            spread == magnitude(a) + magnitude(b),
            unit == 0x100_0000_0000,
    ;
    assert(spread == 2 * lt && 50 * lt <= 0x4700_0000_0000 * length) by (nonlinear_arith)
        requires
            spread == 2 * length * t,
            lt == length * t,
            50 * (length * t) <= 71 * unit * length,
            unit == 0x100_0000_0000,
    ;
    assert(far == 4 * llk && 0xffff_ffff_fe00_0000_0000 * ll <= llk
        <= 0x1_0000_0000_0200_0000_0000 * ll) by (nonlinear_arith)
        requires
            far == 4 * ll * k,
            llk == ll * k,
            ll * (unit * unit - 2 * unit) <= ll * k <= ll * (unit * unit + 2 * unit),
            unit == 0x100_0000_0000,
    ;
    assert(near <= far + 0x200_0000_0000 * spread + 0x2_0000_0000_0000_0000_0000);
    assert(near >= far - 0x200_0000_0000 * spread);
    assert((length + 1) * (length + 1) == ll + 2 * length + 1 && (length - 1) * (length - 1) == ll
        - 2 * length + 1) by (nonlinear_arith)
        requires
            ll == length * length,
    ;
}

/// The far end of a ray lies within one pixel of the ray length from its
/// source, whatever the angle, as long as it stays inside the coordinate
/// range.
pub proof fn lemma_ray_end_distance(cx: int, cy: int, length: int, deg: u32)
    requires
        deg < RAY_COUNT,
        1 <= length <= u32::MAX,
        i32::MIN <= cx - length,
        cx + length <= i32::MAX,
        i32::MIN <= cy - length,
        cy + length <= i32::MAX,
    ensures
        ({
            let e = ray_end(cx, cy, length, deg);
            let d2 = (e.0 - cx) * (e.0 - cx) + (e.1 - cy) * (e.1 - cy);
            (length - 1) * (length - 1) <= d2 <= (length + 1) * (length + 1)
        }),
{
    let unit: int = UNIT as int;
    let c = cos_fixed(deg);
    let s = sin_fixed(deg);
    lemma_unit_circle(deg);
    let qx = div_round(cx * unit + length * c, unit);
    let qy = div_round(cy * unit + length * s, unit);
    lemma_div_round_error(cx * unit + length * c, unit);
    lemma_div_round_error(cy * unit + length * s, unit);
    assert((cx - length) * unit <= cx * unit + length * c <= (cx + length) * unit)
        by (nonlinear_arith)
        requires
            -unit <= c <= unit,
            length >= 0,
    ;
    assert((cy - length) * unit <= cy * unit + length * s <= (cy + length) * unit)
        by (nonlinear_arith)
        requires
            -unit <= s <= unit,
            length >= 0,
    ;
    lemma_div_round_between(cx * unit + length * c, unit, cx - length, cx + length);
    lemma_div_round_between(cy * unit + length * s, unit, cy - length, cy + length);
    let e = ray_end(cx, cy, length, deg);
    assert(e.0 == qx && e.1 == qy);
    let u = qx - cx;
    let v = qy - cy;
    assert(2 * UNIT * u - 2 * length * c == 2 * unit * qx - 2 * (cx * unit + length * c))
        by (nonlinear_arith)
        requires
            u == qx - cx,
            unit == UNIT,
    ;
    assert(2 * UNIT * v - 2 * length * s == 2 * unit * qy - 2 * (cy * unit + length * s))
        by (nonlinear_arith)
        requires
            v == qy - cy,
            unit == UNIT,
    ;
    lemma_rounded_point_distance(length, c, s, u, v);
}

/// In a scene without occluders every ray of a light is drawn to its far
/// end, which lies within one pixel of the ray length from the light; no ray
/// is drawn shorter.
pub proof fn lemma_unobstructed_rays(
    objects: Seq<Circle>,
    cx: int,
    cy: int,
    deg: u32,
    cursor_pos: (i64, i64),
    window: (u32, u32),
)
    requires
        no_occluders(objects),
        deg < RAY_COUNT,
        ray_length(window) >= 1,
        i32::MIN <= cx - ray_length(window),
        cx + ray_length(window) <= i32::MAX,
        i32::MIN <= cy - ray_length(window),
        cy + ray_length(window) <= i32::MAX,
    ensures
        ({
            let t = ray_target(objects, cx, cy, deg, cursor_pos, window);
            let d2 = (t.0 - cx) * (t.0 - cx) + (t.1 - cy) * (t.1 - cy);
            &&& t == ray_end(cx, cy, ray_length(window), deg)
            &&& (ray_length(window) - 1) * (ray_length(window) - 1) <= d2
            &&& d2 <= (ray_length(window) + 1) * (ray_length(window) + 1)
        }),
{
    let e = ray_end(cx, cy, ray_length(window), deg);
    lemma_no_occluders_no_hit(objects, cx, cy, e.0, e.1, cursor_pos, window);
    lemma_ray_end_distance(cx, cy, ray_length(window), deg);
}

/// Computes one coordinate of the far end of a ray.
fn ray_end_coordinate(c: i32, length: u32, dir: i64) -> (e: i32)
    requires
        -UNIT <= dir <= UNIT,
    ensures
        e == ray_end_axis(c as int, length as int, dir as int),
{
    let reach: i128 = length as i128;
    let d: i128 = dir as i128;
    assert(-0x1_0000_0000 * 0x100_0000_0000 <= reach * d <= 0x1_0000_0000 * 0x100_0000_0000)
        by (nonlinear_arith)
        requires
            0 <= reach <= 0x1_0000_0000,
            -0x100_0000_0000 <= d <= 0x100_0000_0000,
    ;
    let n: i128 = c as i128 * UNIT as i128 + reach * d;
    let q: i128 = rounded_quotient(n, UNIT as u64);
    if q < i32::MIN as i128 {
        i32::MIN
    } else if q > i32::MAX as i128 {
        i32::MAX
    } else {
        q as i32
    }
}

/// Computes the far end of ray number `deg` of a light at `(cx, cy)`.
pub fn ray_endpoint(cx: i32, cy: i32, length: u32, deg: u32) -> (e: (i32, i32))
    requires
        deg < RAY_COUNT,
    ensures
        (e.0 as int, e.1 as int) == ray_end(cx as int, cy as int, length as int, deg),
{
    (ray_end_coordinate(cx, length, cosine(deg)), ray_end_coordinate(cy, length, sine(deg)))
}

/// Draws rays emanating from a light source at `(cx, cy)` with shadow
/// casting: every ray ends where it first meets a disc that is not a light,
/// or at its full length.
pub fn draw_rays_with_shadows(
    cx: i32,
    cy: i32,
    objects: &[Circle],
    frame: &mut [u8],
    window: &(u32, u32),
    cursor_pos: &(i64, i64),
)
    requires
        occluders_placeable(objects@, *window),
    ensures
        final(frame)@ == rays(
            old(frame)@,
            objects@,
            cx as int,
            cy as int,
            *cursor_pos,
            *window,
        ),
{
    let ghost start = frame@;
    let reach: u32 = if window.0 >= window.1 {
        window.0
    } else {
        window.1
    };
    let mut i: u32 = 0;
    while i < RAY_COUNT
        invariant
            i <= RAY_COUNT,
            reach == ray_length(*window),
            occluders_placeable(objects@, *window),
            frame@ == rays_prefix(start, objects@, cx as int, cy as int, i, *cursor_pos, *window),
        decreases RAY_COUNT - i,
    {
        let (ex, ey) = ray_endpoint(cx, cy, reach, i);
        match find_ray_intersection(cx, cy, ex, ey, objects, cursor_pos, window) {
            Some((hit_x, hit_y)) => {
                draw_line(cx, cy, hit_x, hit_y, RAY_COLOR, frame, window);
            },
            None => {
                draw_line(cx, cy, ex, ey, RAY_COLOR, frame, window);
            },
        }
        i += 1;
    }
}

} // verus!
