//! From a triangle to the bytes of the finished picture.

use vstd::prelude::*;
use crate::coord::{ScreenCoord, WIDTH, HEIGHT};
use crate::image::{Image, blank};
use crate::ppm::{encode_ppm, header, ppm};
use crate::raster::{draw_triangle, shade_triangle, shaded_image, triangle_image};
use crate::triangle::Triangle;

verus! {

/// Draws the triangle `a`, `b`, `c` with banded shading on a black image and
/// encodes the picture as a binary pixel map.
///
/// The bytes are a function of the three vertices alone: the same triangle
/// gives the same file, byte for byte.
pub fn render_triangle(a: ScreenCoord, b: ScreenCoord, c: ScreenCoord) -> (bytes: Vec<u8>)
    ensures
        bytes@ == ppm(triangle_image(a, b, c, blank())),
        bytes@.len() == header(WIDTH as nat, HEIGHT as nat).len() + 3 * WIDTH * HEIGHT,
        bytes@.subrange(0, header(WIDTH as nat, HEIGHT as nat).len() as int) == header(
            WIDTH as nat,
            HEIGHT as nat,
        ),
{
    let mut image = Image::new();
    draw_triangle(a, b, c, &mut image);
    encode_ppm(&image)
}

/// Draws the triangle with coverage shading on a black image and encodes the
/// picture as a binary pixel map.
///
/// The bytes are a function of the triangle, its colour included, alone: the
/// same triangle gives the same file, byte for byte.
pub fn render_shaded_triangle(triangle: &Triangle) -> (bytes: Vec<u8>)
    ensures
        bytes@ == ppm(shaded_image(*triangle, blank())),
        bytes@.len() == header(WIDTH as nat, HEIGHT as nat).len() + 3 * WIDTH * HEIGHT,
        bytes@.subrange(0, header(WIDTH as nat, HEIGHT as nat).len() as int) == header(
            WIDTH as nat,
            HEIGHT as nat,
        ),
{
    let mut image = Image::new();
    shade_triangle(triangle, &mut image);
    encode_ppm(&image)
}

} // verus!
