//! Occlusion: which sample point of a ray is the first to fall inside a disc
//! that is not a light.

use vstd::prelude::*;
use crate::arith::{ceil_sqrt, div_round, lemma_div_round_between, rounded_quotient, rounded_up_root};
use crate::circle::Circle;

verus! {

/// Whether `(px, py)` lies in the closed disc around `(cx, cy)`.
pub open spec fn inside_circle(px: int, py: int, cx: int, cy: int, radius: int) -> bool {
    (px - cx) * (px - cx) + (py - cy) * (py - cy) <= radius * radius
}

/// Whether `obj` stops a ray at `(px, py)`: lights stop nothing.
pub open spec fn blocks(
    obj: Circle,
    px: int,
    py: int,
    cursor_pos: (i64, i64),
    window: (u32, u32),
) -> bool {
    let c = obj.center(cursor_pos, window);
    !obj.emits_light && inside_circle(px, py, c.0, c.1, obj.radius as int)
}

/// Whether some disc of the scene stops a ray at `(px, py)`.
pub open spec fn occluded(
    objects: Seq<Circle>,
    px: int,
    py: int,
    cursor_pos: (i64, i64),
    window: (u32, u32),
) -> bool {
    exists|j: int| 0 <= j < objects.len() && blocks(#[trigger] objects[j], px, py, cursor_pos, window)
}

/// Whether every disc of the scene that can stop a ray has a centre in a
/// window of this size.
pub open spec fn occluders_placeable(objects: Seq<Circle>, window: (u32, u32)) -> bool {
    forall|j: int|
        0 <= j < objects.len() && !(#[trigger] objects[j]).emits_light ==> objects[j].placeable(
            window,
        )
}

/// Number of sampling steps along the ray: its length, rounded up.
pub open spec fn ray_steps(x0: int, y0: int, x1: int, y1: int) -> int {
    ceil_sqrt((x1 - x0) * (x1 - x0) + (y1 - y0) * (y1 - y0))
}

/// One coordinate of the `k`-th sample: the point at `k / steps` of the way
/// from `from` to `to`, rounded to the nearest pixel, a tie going away from
/// zero.
pub open spec fn sample_axis(from: int, to: int, k: int, steps: int) -> int {
    div_round(from * steps + (to - from) * k, steps)
}

/// The `k`-th sample point of the ray from `(x0, y0)` to `(x1, y1)`.
pub open spec fn ray_sample(x0: int, y0: int, x1: int, y1: int, k: int) -> (int, int) {
    let steps = ray_steps(x0, y0, x1, y1);
    (sample_axis(x0, x1, k, steps), sample_axis(y0, y1, k, steps))
}

/// Whether the `k`-th sample point of the ray lies inside a disc that is not
/// a light.
pub open spec fn sample_occluded(
    objects: Seq<Circle>,
    x0: int,
    y0: int,
    x1: int,
    y1: int,
    k: int,
    cursor_pos: (i64, i64),
    window: (u32, u32),
) -> bool {
    let p = ray_sample(x0, y0, x1, y1, k);
    occluded(objects, p.0, p.1, cursor_pos, window)
}

/// The first sample point from the `k`-th on that is occluded, if there is
/// one before the far end of the ray.
pub open spec fn first_hit_from(
    objects: Seq<Circle>,
    x0: int,
    y0: int,
    x1: int,
    y1: int,
    k: int,
    cursor_pos: (i64, i64),
    window: (u32, u32),
) -> Option<(int, int)>
    decreases ray_steps(x0, y0, x1, y1) - k,
{
    if k >= ray_steps(x0, y0, x1, y1) {
        None
    } else {
        if sample_occluded(objects, x0, y0, x1, y1, k, cursor_pos, window) {
            Some(ray_sample(x0, y0, x1, y1, k))
        } else {
            first_hit_from(objects, x0, y0, x1, y1, k + 1, cursor_pos, window)
        }
    }
}

/// Where the ray from `(x0, y0)` to `(x1, y1)` is stopped: the occluded
/// sample point nearest to the source, neither end of the ray being sampled.
pub open spec fn ray_hit(
    objects: Seq<Circle>,
    x0: int,
    y0: int,
    x1: int,
    y1: int,
    cursor_pos: (i64, i64),
    window: (u32, u32),
) -> Option<(int, int)> {
    first_hit_from(objects, x0, y0, x1, y1, 1, cursor_pos, window)
}

/// Whether sample number `m` is where the search that starts at sample `k`
/// stops: it is occluded and no sample from `k` up to it is.
pub open spec fn stops_at(
    objects: Seq<Circle>,
    x0: int,
    y0: int,
    x1: int,
    y1: int,
    k: int,
    m: int,
    cursor_pos: (i64, i64),
    window: (u32, u32),
) -> bool {
    &&& k <= m < ray_steps(x0, y0, x1, y1)
    &&& sample_occluded(objects, x0, y0, x1, y1, m, cursor_pos, window)
    &&& forall|j: int|
        k <= j < m ==> !#[trigger] sample_occluded(objects, x0, y0, x1, y1, j, cursor_pos, window)
}

/// The search that starts at sample `k` stops at the first occluded sample
/// from there on, and stops nowhere exactly when there is none.
proof fn lemma_first_hit_from(
    objects: Seq<Circle>,
    x0: int,
    y0: int,
    x1: int,
    y1: int,
    k: int,
    cursor_pos: (i64, i64),
    window: (u32, u32),
)
    ensures
        match first_hit_from(objects, x0, y0, x1, y1, k, cursor_pos, window) {
            Some(p) => exists|m: int|
                #[trigger] stops_at(objects, x0, y0, x1, y1, k, m, cursor_pos, window) && p
                    == ray_sample(x0, y0, x1, y1, m),
            None => forall|j: int|
                k <= j < ray_steps(x0, y0, x1, y1) ==> !#[trigger] sample_occluded(
                    objects,
                    x0,
                    y0,
                    x1,
                    y1,
                    j,
                    cursor_pos,
                    window,
                ),
        },
    decreases ray_steps(x0, y0, x1, y1) - k,
{
    if k < ray_steps(x0, y0, x1, y1) {
        if sample_occluded(objects, x0, y0, x1, y1, k, cursor_pos, window) {
            assert(stops_at(objects, x0, y0, x1, y1, k, k, cursor_pos, window));
        } else {
            lemma_first_hit_from(objects, x0, y0, x1, y1, k + 1, cursor_pos, window);
            match first_hit_from(objects, x0, y0, x1, y1, k + 1, cursor_pos, window) {
                Some(p) => {
                    let m = choose|m: int|
                        #[trigger] stops_at(objects, x0, y0, x1, y1, k + 1, m, cursor_pos, window)
                            && p == ray_sample(x0, y0, x1, y1, m);
                    assert(stops_at(objects, x0, y0, x1, y1, k, m, cursor_pos, window));
                },
                None => {},
            }
        }
    }
}

/// A ray is stopped at the occluded sample point nearest to its source: the
/// point returned is a sample point inside a disc that is not a light, and no
/// sample point before it is inside one.  A ray is not stopped exactly when
/// none of its sample points is occluded.
pub proof fn lemma_ray_hit_is_first(
    objects: Seq<Circle>,
    x0: int,
    y0: int,
    x1: int,
    y1: int,
    cursor_pos: (i64, i64),
    window: (u32, u32),
)
    ensures
        match ray_hit(objects, x0, y0, x1, y1, cursor_pos, window) {
            Some(p) => exists|m: int|
                #[trigger] stops_at(objects, x0, y0, x1, y1, 1, m, cursor_pos, window) && p
                    == ray_sample(x0, y0, x1, y1, m),
            None => forall|j: int|
                1 <= j < ray_steps(x0, y0, x1, y1) ==> !#[trigger] sample_occluded(
                    objects,
                    x0,
                    y0,
                    x1,
                    y1,
                    j,
                    cursor_pos,
                    window,
                ),
        },
{
    lemma_first_hit_from(objects, x0, y0, x1, y1, 1, cursor_pos, window);
}

/// Whether the scene has nothing that could stop a ray: every disc in it is
/// a light.
pub open spec fn no_occluders(objects: Seq<Circle>) -> bool {
    forall|j: int| 0 <= j < objects.len() ==> (#[trigger] objects[j]).emits_light
}

/// In a scene without occluders no ray is stopped.
pub proof fn lemma_no_occluders_no_hit(
    objects: Seq<Circle>,
    x0: int,
    y0: int,
    x1: int,
    y1: int,
    cursor_pos: (i64, i64),
    window: (u32, u32),
)
    requires
        no_occluders(objects),
    ensures
        ray_hit(objects, x0, y0, x1, y1, cursor_pos, window) is None,
{
    lemma_ray_hit_is_first(objects, x0, y0, x1, y1, cursor_pos, window);
}

/// Whether sample number `m` of the ray is where it enters `disc`: the
/// sample point lies inside the disc and the one before it, unless that is
/// the source itself, lies outside.
pub open spec fn enters_at(
    disc: Circle,
    x0: int,
    y0: int,
    x1: int,
    y1: int,
    m: int,
    cursor_pos: (i64, i64),
    window: (u32, u32),
) -> bool {
    let p = ray_sample(x0, y0, x1, y1, m);
    let before = ray_sample(x0, y0, x1, y1, m - 1);
    &&& 1 <= m < ray_steps(x0, y0, x1, y1)
    &&& blocks(disc, p.0, p.1, cursor_pos, window)
    &&& m > 1 ==> !blocks(disc, before.0, before.1, cursor_pos, window)
}

/// A ray with a single occluding disc in its path ends at the rim of that
/// disc: it is stopped at a sample point inside the disc whose predecessor is
/// outside, and it is stopped whenever one of its sample points is inside.
/// Without the disc the same ray is not stopped.
pub proof fn lemma_single_occluder(
    disc: Circle,
    x0: int,
    y0: int,
    x1: int,
    y1: int,
    cursor_pos: (i64, i64),
    window: (u32, u32),
)
    requires
        !disc.emits_light,
    ensures
        match ray_hit(seq![disc], x0, y0, x1, y1, cursor_pos, window) {
            Some(p) => exists|m: int|
                #[trigger] enters_at(disc, x0, y0, x1, y1, m, cursor_pos, window) && p
                    == ray_sample(x0, y0, x1, y1, m),
            None => forall|k: int|
                1 <= k < ray_steps(x0, y0, x1, y1) ==> {
                    let p = #[trigger] ray_sample(x0, y0, x1, y1, k);
                    !blocks(disc, p.0, p.1, cursor_pos, window)
                },
        },
        ray_hit(Seq::<Circle>::empty(), x0, y0, x1, y1, cursor_pos, window) is None,
{
    let scene = seq![disc];
    assert(scene[0] == disc);
    assert forall|px: int, py: int|
        occluded(scene, px, py, cursor_pos, window) == blocks(
            disc,
            px,
            py,
            cursor_pos,
            window,
        ) by {
        if blocks(disc, px, py, cursor_pos, window) {
            assert(blocks(scene[0], px, py, cursor_pos, window));
        }
    }
    lemma_ray_hit_is_first(scene, x0, y0, x1, y1, cursor_pos, window);
    match ray_hit(scene, x0, y0, x1, y1, cursor_pos, window) {
        Some(p) => {
            let m = choose|m: int|
                #[trigger] stops_at(scene, x0, y0, x1, y1, 1, m, cursor_pos, window) && p
                    == ray_sample(x0, y0, x1, y1, m);
            if m > 1 {
                assert(!sample_occluded(scene, x0, y0, x1, y1, m - 1, cursor_pos, window));
            }
            assert(enters_at(disc, x0, y0, x1, y1, m, cursor_pos, window));
        },
        None => {
            assert forall|k: int| 1 <= k < ray_steps(x0, y0, x1, y1) implies {
                let p = #[trigger] ray_sample(x0, y0, x1, y1, k);
                !blocks(disc, p.0, p.1, cursor_pos, window)
            } by {
                assert(!sample_occluded(scene, x0, y0, x1, y1, k, cursor_pos, window));
            }
        },
    }
    lemma_no_occluders_no_hit(Seq::<Circle>::empty(), x0, y0, x1, y1, cursor_pos, window);
}

/// Checks if a point is inside a circle.
pub fn point_in_circle(px: i32, py: i32, cx: i32, cy: i32, radius: i32) -> (inside: bool)
    ensures
        inside == inside_circle(px as int, py as int, cx as int, cy as int, radius as int),
{
    let dx: i128 = px as i128 - cx as i128;
    let dy: i128 = py as i128 - cy as i128;
    let r: i128 = radius as i128;
    assert(0 <= dx * dx <= 0x1_0000_0000_0000_0000) by (nonlinear_arith)
        requires
            -0x1_0000_0000 <= dx <= 0x1_0000_0000,
    ;
    assert(0 <= dy * dy <= 0x1_0000_0000_0000_0000) by (nonlinear_arith)
        requires
            -0x1_0000_0000 <= dy <= 0x1_0000_0000,
    ;
    assert(0 <= r * r <= 0x1_0000_0000_0000_0000) by (nonlinear_arith)
        requires
            -0x1_0000_0000 <= r <= 0x1_0000_0000,
    ;
    dx * dx + dy * dy <= r * r
}

/// Tests a point against every disc of the scene that is not a light.
fn point_occluded(
    px: i32,
    py: i32,
    objects: &[Circle],
    cursor_pos: &(i64, i64),
    window: &(u32, u32),
) -> (hit: bool)
    requires
        occluders_placeable(objects@, *window),
    ensures
        hit == occluded(objects@, px as int, py as int, *cursor_pos, *window),
{
    let mut j: usize = 0;
    while j < objects.len()
        invariant
            j <= objects@.len(),
            occluders_placeable(objects@, *window),
            forall|i: int|
                0 <= i < j ==> !blocks(
                    #[trigger] objects@[i],
                    px as int,
                    py as int,
                    *cursor_pos,
                    *window,
                ),
        decreases objects@.len() - j,
    {
        let obj = &objects[j];
        if !obj.emits_light {
            let (cx, cy) = obj.get_center(cursor_pos, window);
            if point_in_circle(px, py, cx, cy, obj.radius) {
                assert(blocks(objects@[j as int], px as int, py as int, *cursor_pos, *window));
                return true;
            }
        }
        j += 1;
    }
    false
}

/// Computes one coordinate of a sample point.
fn sample_coordinate(from: i32, to: i32, k: u64, steps: u64) -> (p: i32)
    requires
        0 < steps <= 0x2_0000_0000,
        k <= steps,
    ensures
        p == sample_axis(from as int, to as int, k as int, steps as int),
{
    let f: i128 = from as i128;
    let d: i128 = to as i128 - from as i128;
    let kk: i128 = k as i128;
    let ss: i128 = steps as i128;
    assert(-0x1_0000_0000_0000_0000 <= f * ss <= 0x1_0000_0000_0000_0000) by (nonlinear_arith)
        requires
            -0x8000_0000 <= f <= 0x8000_0000,
            0 <= ss <= 0x2_0000_0000,
    ;
    assert(-0x2_0000_0000_0000_0000 <= d * kk <= 0x2_0000_0000_0000_0000) by (nonlinear_arith)
        requires
            -0x1_0000_0000 <= d <= 0x1_0000_0000,
            0 <= kk <= 0x2_0000_0000,
    ;
    let n: i128 = f * ss + d * kk;
    let q: i128 = rounded_quotient(n, steps);
    proof {
        let lo: int = if from <= to { from as int } else { to as int };
        let hi: int = if from <= to { to as int } else { from as int };
        assert(lo * ss <= f * ss + d * kk <= hi * ss) by (nonlinear_arith)
            requires
                0 <= kk <= ss,
                d == to - from,
                f == from,
                lo == if from <= to { from as int } else { to as int },
                hi == if from <= to { to as int } else { from as int },
        ;
        lemma_div_round_between(n as int, steps as int, lo, hi);
    }
    q as i32
}

/// Finds the point at which the ray from `(x0, y0)` to `(x1, y1)` first
/// enters a disc that is not a light.  The ray is sampled once per pixel of
/// its length, from the source outward, the two ends left out.
pub fn find_ray_intersection(
    x0: i32,
    y0: i32,
    x1: i32,
    y1: i32,
    objects: &[Circle],
    cursor_pos: &(i64, i64),
    window: &(u32, u32),
) -> (hit: Option<(i32, i32)>)
    requires
        occluders_placeable(objects@, *window),
    ensures
        match hit {
            Some(p) => ray_hit(
                objects@,
                x0 as int,
                y0 as int,
                x1 as int,
                y1 as int,
                *cursor_pos,
                *window,
            ) == Some((p.0 as int, p.1 as int)),
            None => ray_hit(
                objects@,
                x0 as int,
                y0 as int,
                x1 as int,
                y1 as int,
                *cursor_pos,
                *window,
            ) is None,
        },
{
    let dx: i128 = x1 as i128 - x0 as i128;
    let dy: i128 = y1 as i128 - y0 as i128;
    assert(0 <= dx * dx <= 0x1_0000_0000_0000_0000) by (nonlinear_arith)
        requires
            -0x1_0000_0000 <= dx <= 0x1_0000_0000,
    ;
    assert(0 <= dy * dy <= 0x1_0000_0000_0000_0000) by (nonlinear_arith)
        requires
            -0x1_0000_0000 <= dy <= 0x1_0000_0000,
    ;
    let steps: u64 = rounded_up_root((dx * dx + dy * dy) as u128);
    let mut k: u64 = 1;
    while k < steps
        invariant
            1 <= k,
            steps == ray_steps(x0 as int, y0 as int, x1 as int, y1 as int),
            steps <= 0x2_0000_0000,
            occluders_placeable(objects@, *window),
            ray_hit(objects@, x0 as int, y0 as int, x1 as int, y1 as int, *cursor_pos, *window)
                == first_hit_from(
                objects@,
                x0 as int,
                y0 as int,
                x1 as int,
                y1 as int,
                k as int,
                *cursor_pos,
                *window,
            ),
        decreases steps - k,
    {
        let px: i32 = sample_coordinate(x0, x1, k, steps);
        let py: i32 = sample_coordinate(y0, y1, k, steps);
        if point_occluded(px, py, objects, cursor_pos, window) {
            return Some((px, py));
        }
        k += 1;
    }
    None
}

} // verus!
