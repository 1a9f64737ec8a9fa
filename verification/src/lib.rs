//! Software rasteriser for a small two-dimensional scene of discs, one of
//! which is a point light that follows the pointer.  Every frame is drawn
//! into a caller-owned RGBA byte buffer: a fan of shadow rays first, the
//! discs on top.  All arithmetic is exact integer arithmetic.

pub mod arith;
pub mod circle;
pub mod coverage;
pub mod disc;
pub mod line;
pub mod occlusion;
pub mod pixel;
pub mod rays;
pub mod scene;
pub mod trig;

pub use circle::Circle;
pub use disc::{draw_circle, draw_horizontal_line};
pub use line::draw_line;
pub use occlusion::{find_ray_intersection, point_in_circle};
pub use pixel::draw_on_point;
pub use rays::{draw_rays_with_shadows, ray_endpoint};
pub use scene::{draw, draw_scene};
