//! The pixel compositor: one alpha-blended write into an RGBA frame buffer.

use vstd::prelude::*;

verus! {

/// One colour channel after blending `src` over `dst` with weight
/// `alpha / 255`, rounded down.
pub open spec fn blend_channel(src: u8, dst: u8, alpha: u8) -> u8 {
    ((src as int * alpha as int + dst as int * (255 - alpha as int)) / 255) as u8
}

/// Byte offset of the pixel `(x, y)` in a row-major RGBA buffer whose rows
/// hold `width` pixels.
pub open spec fn pixel_offset(x: int, y: int, width: int) -> int {
    (y * width + x) * 4
}

/// The frame after `color` has been blended onto the pixel at `(x, y)`.
/// A pixel whose four bytes do not all lie inside the buffer is dropped.
pub open spec fn blended(frame: Seq<u8>, x: int, y: int, width: int, color: [u8; 4]) -> Seq<u8> {
    let i = pixel_offset(x, y, width);
    if 0 <= i && i + 3 < frame.len() {
        frame.update(i, blend_channel(color[0], frame[i], color[3])).update(
            i + 1,
            blend_channel(color[1], frame[i + 1], color[3]),
        ).update(i + 2, blend_channel(color[2], frame[i + 2], color[3])).update(i + 3, 255u8)
    } else {
        frame
    }
}

/// At full opacity a channel takes the source value; at zero opacity it keeps
/// the destination value.
pub proof fn lemma_blend_extremes(src: u8, dst: u8)
    ensures
        blend_channel(src, dst, 255) == src,
        blend_channel(src, dst, 0) == dst,
{
}

/// A channel never leaves the range spanned by source and destination.
pub proof fn lemma_blend_between(src: u8, dst: u8, alpha: u8)
    ensures
        src <= dst ==> src <= blend_channel(src, dst, alpha) <= dst,
        dst <= src ==> dst <= blend_channel(src, dst, alpha) <= src,
{
    let a = alpha as int;
    let s = src as int;
    let d = dst as int;
    let mix = s * a + d * (255 - a);
    assert(s <= d ==> 255 * s <= mix <= 255 * d) by (nonlinear_arith)
        requires
            mix == s * a + d * (255 - a),
            0 <= a <= 255,
    ;
    assert(d <= s ==> 255 * d <= mix <= 255 * s) by (nonlinear_arith)
        requires
            mix == s * a + d * (255 - a),
            0 <= a <= 255,
    ;
}

/// Blending a fully opaque colour onto a pixel inside the buffer replaces
/// the pixel's four bytes by the colour and leaves every other byte alone.
pub proof fn lemma_opaque_replaces(frame: Seq<u8>, x: int, y: int, width: int, color: [u8; 4])
    requires
        color[3] == 255,
        0 <= pixel_offset(x, y, width),
        pixel_offset(x, y, width) + 3 < frame.len(),
    ensures
        blended(frame, x, y, width, color).len() == frame.len(),
        forall|c: int|
            0 <= c < 4 ==> blended(frame, x, y, width, color)[pixel_offset(x, y, width) + c]
                == #[trigger] color[c],
        forall|j: int|
            0 <= j < frame.len() && !(pixel_offset(x, y, width) <= j < pixel_offset(x, y, width)
                + 4) ==> #[trigger] blended(frame, x, y, width, color)[j] == frame[j],
{
    let i = pixel_offset(x, y, width);
    lemma_blend_extremes(color[0], frame[i]);
    lemma_blend_extremes(color[1], frame[i + 1]);
    lemma_blend_extremes(color[2], frame[i + 2]);
}

/// Blending a fully transparent colour leaves the frame byte for byte as it
/// was, provided the pixel was opaque before or lies outside the buffer: the
/// stored alpha of a painted pixel is always 255.
pub proof fn lemma_transparent_keeps(frame: Seq<u8>, x: int, y: int, width: int, color: [u8; 4])
    requires
        color[3] == 0,
        0 <= pixel_offset(x, y, width) && pixel_offset(x, y, width) + 3 < frame.len()
            ==> frame[pixel_offset(x, y, width) + 3] == 255,
    ensures
        blended(frame, x, y, width, color) == frame,
{
    let i = pixel_offset(x, y, width);
    if 0 <= i && i + 3 < frame.len() {
        lemma_blend_extremes(color[0], frame[i]);
        lemma_blend_extremes(color[1], frame[i + 1]);
        lemma_blend_extremes(color[2], frame[i + 2]);
        assert(blended(frame, x, y, width, color) =~= frame);
    }
}

/// Blends one channel.
pub fn blend(src: u8, dst: u8, alpha: u8) -> (out: u8)
    ensures
        out == blend_channel(src, dst, alpha),
{
    let a: u32 = alpha as u32;
    let s: u32 = src as u32;
    let d: u32 = dst as u32;
    assert(s * a <= 255 * a) by (nonlinear_arith)
        requires
            s <= 255,
            0 <= a,
    ;
    assert(d * (255 - a) <= 255 * (255 - a)) by (nonlinear_arith)
        requires
            d <= 255,
            0 <= 255 - a,
    ;
    let mixed: u32 = (s * a + d * (255 - a)) / 255;
    mixed as u8
}

/// Draws a single pixel at `(x, y)` with alpha blending.  The stored alpha
/// becomes 255.  Nothing is written when the pixel's bytes would fall outside
/// the buffer.
pub fn draw_on_point(x: u32, y: u32, color: [u8; 4], frame: &mut [u8], width: u32)
    ensures
        final(frame)@ == blended(old(frame)@, x as int, y as int, width as int, color),
{
    assert(y * width <= 0xffff_ffff * 0xffff_ffff) by (nonlinear_arith)
        requires
            0 <= y <= 0xffff_ffff,
            0 <= width <= 0xffff_ffff,
    ;
    let offset: u128 = (y as u128 * width as u128 + x as u128) * 4;
    if offset + 3 < frame.len() as u128 {
        let i: usize = offset as usize;
        frame[i] = blend(color[0], frame[i], color[3]);
        frame[i + 1] = blend(color[1], frame[i + 1], color[3]);
        frame[i + 2] = blend(color[2], frame[i + 2], color[3]);
        frame[i + 3] = 255;
    }
}

/// Whether `(x, y)` names a pixel of a window that is `window.0` pixels wide
/// and `window.1` pixels high.
pub open spec fn in_bounds(x: int, y: int, window: (u32, u32)) -> bool {
    0 <= x < window.0 && 0 <= y < window.1
}

/// The frame after `color` has been blended onto `(x, y)`, if that point lies
/// inside the window; the unchanged frame otherwise.
pub open spec fn plotted(frame: Seq<u8>, x: int, y: int, color: [u8; 4], window: (u32, u32)) -> Seq<
    u8,
> {
    if in_bounds(x, y, window) {
        blended(frame, x, y, window.0 as int, color)
    } else {
        frame
    }
}

/// Whether the buffer holds exactly the pixels of the window.
pub open spec fn fits_window(frame: Seq<u8>, window: (u32, u32)) -> bool {
    frame.len() == window.0 * window.1 * 4
}

/// Whether the pixel at `(x, y)` holds exactly `color`.
pub open spec fn shows(frame: Seq<u8>, x: int, y: int, width: int, color: [u8; 4]) -> bool {
    let i = pixel_offset(x, y, width);
    &&& frame[i] == color[0]
    &&& frame[i + 1] == color[1]
    &&& frame[i + 2] == color[2]
    &&& frame[i + 3] == color[3]
}

/// Whether two frames hold the same four bytes at the pixel `(x, y)`.
pub open spec fn same_pixel(a: Seq<u8>, b: Seq<u8>, x: int, y: int, width: int) -> bool {
    let i = pixel_offset(x, y, width);
    &&& a[i] == b[i]
    &&& a[i + 1] == b[i + 1]
    &&& a[i + 2] == b[i + 2]
    &&& a[i + 3] == b[i + 3]
}

/// The pixels of a window lie inside a buffer that fits it, and no two of
/// them share a byte.
pub proof fn lemma_pixels_apart(x: int, y: int, px: int, py: int, window: (u32, u32))
    requires
        in_bounds(x, y, window),
        in_bounds(px, py, window),
    ensures
        0 <= pixel_offset(x, y, window.0 as int),
        pixel_offset(x, y, window.0 as int) + 3 < window.0 * window.1 * 4,
        (x, y) != (px, py) ==> pixel_offset(x, y, window.0 as int) + 4 <= pixel_offset(
            px,
            py,
            window.0 as int,
        ) || pixel_offset(px, py, window.0 as int) + 4 <= pixel_offset(x, y, window.0 as int),
{
    let w = window.0 as int;
    let h = window.1 as int;
    assert(0 <= y * w + x && y * w + x + 1 <= w * h) by (nonlinear_arith)
        requires
            0 <= x < w,
            0 <= y < h,
    ;
    assert(y < py ==> y * w + x < py * w + px) by (nonlinear_arith)
        requires
            0 <= x < w,
            0 <= px < w,
    ;
    assert(py < y ==> py * w + px < y * w + x) by (nonlinear_arith)
        requires
            0 <= x < w,
            0 <= px < w,
    ;
}

/// What plotting an opaque colour does to any one pixel of the window: the
/// plotted pixel shows the colour, every other pixel is as before.
pub proof fn lemma_plot_effect(
    frame: Seq<u8>,
    x: int,
    y: int,
    color: [u8; 4],
    window: (u32, u32),
    px: int,
    py: int,
)
    requires
        color[3] == 255,
        fits_window(frame, window),
        in_bounds(px, py, window),
    ensures
        fits_window(plotted(frame, x, y, color, window), window),
        (px, py) == (x, y) ==> shows(plotted(frame, x, y, color, window), px, py, window.0 as int, color),
        (px, py) != (x, y) ==> same_pixel(
            plotted(frame, x, y, color, window),
            frame,
            px,
            py,
            window.0 as int,
        ),
{
    if in_bounds(x, y, window) {
        lemma_pixels_apart(x, y, px, py, window);
        lemma_pixels_apart(px, py, x, y, window);
        let i = pixel_offset(x, y, window.0 as int);
        lemma_blend_extremes(color[0], frame[i]);
        lemma_blend_extremes(color[1], frame[i + 1]);
        lemma_blend_extremes(color[2], frame[i + 2]);
    }
}

/// Blends `color` onto `(x, y)` when the point lies inside the window.
pub fn plot(x: i64, y: i64, color: [u8; 4], frame: &mut [u8], window: &(u32, u32))
    ensures
        final(frame)@ == plotted(old(frame)@, x as int, y as int, color, *window),
{
    if x >= 0 && x < window.0 as i64 && y >= 0 && y < window.1 as i64 {
        draw_on_point(x as u32, y as u32, color, frame, window.0);
    }
}

} // verus!
