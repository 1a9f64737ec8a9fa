//! The scene entity: a disc with a colour, which may follow the pointer and
//! may act as a light.

use vstd::prelude::*;

verus! {

/// A disc of the scene.  A value is fully configured when it is built and is
/// never changed afterwards: the scene is made anew for every frame.
#[derive(Clone, Copy)]
pub struct Circle {
    pub x: i32,
    pub y: i32,
    pub radius: i32,
    pub color: [u8; 4],
    pub follow_cursor: bool,
    pub emits_light: bool,
}

/// A pointer coordinate moved into `[0, extent - 1]`, and no further than the
/// largest coordinate a disc can have.
pub open spec fn clamp_axis(c: int, extent: int) -> int {
    let last = if extent - 1 <= i32::MAX {
        extent - 1
    } else {
        i32::MAX as int
    };
    if c < 0 {
        0
    } else if c > last {
        last
    } else {
        c
    }
}

/// Moves one pointer coordinate into the window.
fn clamped(c: i64, extent: u32) -> (r: i32)
    requires
        extent >= 1,
    ensures
        r == clamp_axis(c as int, extent as int),
{
    let last: i64 = if extent as i64 - 1 <= i32::MAX as i64 {
        extent as i64 - 1
    } else {
        i32::MAX as i64
    };
    if c < 0 {
        0
    } else if c > last {
        last as i32
    } else {
        c as i32
    }
}

impl Circle {
    /// A static disc that casts shadows.
    pub fn new(x: i32, y: i32, radius: i32, color: [u8; 4]) -> (c: Self)
        ensures
            c == (Circle { x, y, radius, color, follow_cursor: false, emits_light: false }),
    {
        Circle { x, y, radius, color, follow_cursor: false, emits_light: false }
    }

    /// The same disc, following the pointer or not.
    pub fn with_cursor_follow(self, follow: bool) -> (c: Self)
        ensures
            c == (Circle { follow_cursor: follow, ..self }),
    {
        Circle {
            x: self.x,
            y: self.y,
            radius: self.radius,
            color: self.color,
            follow_cursor: follow,
            emits_light: self.emits_light,
        }
    }

    /// The same disc, emitting light or not.
    pub fn with_light_emission(self, emits: bool) -> (c: Self)
        ensures
            c == (Circle { emits_light: emits, ..self }),
    {
        Circle {
            x: self.x,
            y: self.y,
            radius: self.radius,
            color: self.color,
            follow_cursor: self.follow_cursor,
            emits_light: emits,
        }
    }

    /// Whether the disc has a centre in a window of this size: a disc that
    /// follows the pointer needs at least one pixel to be on.
    pub open spec fn placeable(&self, window: (u32, u32)) -> bool {
        self.follow_cursor ==> window.0 >= 1 && window.1 >= 1
    }

    /// Where the disc is in this frame: at the pointer, kept inside the
    /// window, if it follows the pointer; at its own coordinates otherwise.
    pub open spec fn center(&self, cursor_pos: (i64, i64), window: (u32, u32)) -> (int, int) {
        if self.follow_cursor {
            (
                clamp_axis(cursor_pos.0 as int, window.0 as int),
                clamp_axis(cursor_pos.1 as int, window.1 as int),
            )
        } else {
            (self.x as int, self.y as int)
        }
    }

    /// Resolves the centre of the disc for one frame.  `cursor_pos` is the
    /// pointer position in whole buffer pixels.
    pub fn get_center(&self, cursor_pos: &(i64, i64), window: &(u32, u32)) -> (c: (i32, i32))
        requires
            self.placeable(*window),
        ensures
            (c.0 as int, c.1 as int) == self.center(*cursor_pos, *window),
    {
        if self.follow_cursor {
            (clamped(cursor_pos.0, window.0), clamped(cursor_pos.1, window.1))
        } else {
            (self.x, self.y)
        }
    }
}

} // verus!
