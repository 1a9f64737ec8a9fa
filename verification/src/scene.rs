//! The frame orchestrator: clears the buffer, casts the rays of every light
//! and then fills every disc, so that the discs cover the rays beneath them.

use vstd::prelude::*;
use crate::circle::Circle;
use crate::disc::{disc, draw_circle};
use crate::pixel::fits_window;
use crate::rays::{draw_rays_with_shadows, rays};

verus! {

/// Whether every disc of the scene has a centre in a window of this size.
pub open spec fn scene_placeable(objects: Seq<Circle>, window: (u32, u32)) -> bool {
    forall|j: int| 0 <= j < objects.len() ==> (#[trigger] objects[j]).placeable(window)
}

/// A buffer of `len` zero bytes.
pub open spec fn cleared(len: nat) -> Seq<u8> {
    Seq::new(len, |i: int| 0u8)
}

/// The frame after the ray fans of the lights among the first `count` discs
/// have been drawn, in scene order.
pub open spec fn lights_prefix(
    frame: Seq<u8>,
    objects: Seq<Circle>,
    count: int,
    cursor_pos: (i64, i64),
    window: (u32, u32),
) -> Seq<u8>
    decreases count,
{
    if count <= 0 {
        frame
    } else {
        let before = lights_prefix(frame, objects, count - 1, cursor_pos, window);
        let light = objects[count - 1];
        if light.emits_light {
            let c = light.center(cursor_pos, window);
            rays(before, objects, c.0, c.1, cursor_pos, window)
        } else {
            before
        }
    }
}

/// The frame after the first `count` discs have been filled, in scene order.
pub open spec fn discs_prefix(
    frame: Seq<u8>,
    objects: Seq<Circle>,
    count: int,
    cursor_pos: (i64, i64),
    window: (u32, u32),
) -> Seq<u8>
    decreases count,
{
    if count <= 0 {
        frame
    } else {
        let before = discs_prefix(frame, objects, count - 1, cursor_pos, window);
        let circle = objects[count - 1];
        let c = circle.center(cursor_pos, window);
        disc(before, c.0, c.1, circle.radius as int, circle.color, window)
    }
}

/// The picture of a scene in a buffer of `len` bytes: on a cleared buffer,
/// the rays of all lights first, all discs on top of them.
pub open spec fn scene_picture(
    len: nat,
    objects: Seq<Circle>,
    cursor_pos: (i64, i64),
    window: (u32, u32),
) -> Seq<u8> {
    discs_prefix(
        lights_prefix(cleared(len), objects, objects.len() as int, cursor_pos, window),
        objects,
        objects.len() as int,
        cursor_pos,
        window,
    )
}

/// The discs of the built-in scene: a white disc fixed at the middle of the
/// window, and a pale yellow light that follows the pointer.
pub open spec fn default_scene(width: u32, height: u32) -> Seq<Circle> {
    seq![
        Circle {
            x: (width / 2) as i32,
            y: (height / 2) as i32,
            radius: 100,
            color: [255, 255, 255, 255],
            follow_cursor: false,
            emits_light: false,
        },
        Circle {
            x: 0,
            y: 0,
            radius: 40,
            color: [255, 255, 200, 255],
            follow_cursor: true,
            emits_light: true,
        },
    ]
}

/// Sets every byte of the buffer to zero.
fn clear(frame: &mut [u8])
    ensures
        final(frame)@ == cleared(old(frame)@.len()),
{
    let len: usize = frame.len();
    let mut i: usize = 0;
    while i < len
        invariant
            i <= len,
            frame@.len() == len,
            forall|j: int| 0 <= j < i ==> frame@[j] == 0u8,
        decreases len - i,
    {
        frame[i] = 0;
        i += 1;
    }
    assert(frame@ =~= cleared(len as nat));
}

/// Renders one frame of `objects` into `frame`, a row-major RGBA buffer of
/// `window.0` by `window.1` pixels.  What the buffer held before is
/// discarded.
pub fn draw_scene(
    objects: &[Circle],
    frame: &mut [u8],
    cursor_pos: &(i64, i64),
    window: &(u32, u32),
)
    requires
        fits_window(old(frame)@, *window),
        scene_placeable(objects@, *window),
    ensures
        final(frame)@ == scene_picture(old(frame)@.len(), objects@, *cursor_pos, *window),
{
    let ghost len = frame@.len();
    clear(frame);
    let mut i: usize = 0;
    while i < objects.len()
        invariant
            i <= objects@.len(),
            scene_placeable(objects@, *window),
            frame@ == lights_prefix(cleared(len), objects@, i as int, *cursor_pos, *window),
        decreases objects@.len() - i,
    {
        let light = &objects[i];
        if light.emits_light {
            let (cx, cy) = light.get_center(cursor_pos, window);
            draw_rays_with_shadows(cx, cy, objects, frame, window, cursor_pos);
        }
        i += 1;
    }
    let ghost lit = frame@;
    let mut j: usize = 0;
    while j < objects.len()
        invariant
            j <= objects@.len(),
            scene_placeable(objects@, *window),
            frame@ == discs_prefix(lit, objects@, j as int, *cursor_pos, *window),
        decreases objects@.len() - j,
    {
        let circle = &objects[j];
        let (cx, cy) = circle.get_center(cursor_pos, window);
        draw_circle(cx, cy, circle.radius, circle.color, frame, window);
        j += 1;
    }
}

/// Renders one frame of the built-in scene.  `cursor_pos` is the pointer
/// position in whole buffer pixels; `frame` holds `width * height` pixels of
/// four bytes each.
pub fn draw(frame: &mut [u8], cursor_pos: (i64, i64), width: u32, height: u32)
    requires
        fits_window(old(frame)@, (width, height)),
        width >= 1,
        height >= 1,
    ensures
        final(frame)@ == scene_picture(
            old(frame)@.len(),
            default_scene(width, height),
            cursor_pos,
            (width, height),
        ),
{
    let window = (width, height);
    let objects = vec![
        Circle::new((width / 2) as i32, (height / 2) as i32, 100, [255, 255, 255, 255]),
        Circle::new(0, 0, 40, [255, 255, 200, 255]).with_cursor_follow(true).with_light_emission(
            true,
        ),
    ];
    assert(objects@ =~= default_scene(width, height));
    draw_scene(objects.as_slice(), frame, &cursor_pos, &window);
}

} // verus!
