//! Pixel-grid and screen coordinates, and the maps between them.

use vstd::prelude::*;

verus! {

/// Number of pixel columns of the image.
pub const WIDTH: usize = 203;

/// Number of pixel rows of the image.
pub const HEIGHT: usize = 203;

/// Number of fixed-point steps in one unit of screen space.
///
/// The screen spans `[-1, 1]` on either axis, so one pixel step is
/// `2 / (WIDTH - 1)` of a unit, which is exactly 256 fixed-point steps.
pub const UNIT: i32 = 25856;

/// A cell of the pixel grid; the origin is the top-left corner.
#[derive(Debug, PartialEq, Eq, Clone, Copy, Structural)]
pub struct ImageCoord {
    pub x: usize,
    pub y: usize,
}

/// A point of the plane in screen space, in fixed point: the point
/// `(x / UNIT, y / UNIT)`.
#[derive(Debug, PartialEq, Eq, Clone, Copy, Structural)]
pub struct ScreenCoord {
    pub x: i32,
    pub y: i32,
}

impl ImageCoord {
    /// Whether the cell lies on the grid.
    pub open spec fn in_bounds(self) -> bool {
        self.x < WIDTH && self.y < HEIGHT
    }
}

/// The cell along one axis that a screen coordinate falls into:
/// `(s / UNIT + 1) * (dim - 1) / 2`, truncated toward zero, and zero for
/// everything left of the screen.
pub open spec fn axis_to_image(s: int, dim: int) -> int {
    if s + UNIT <= 0 {
        0
    } else {
        ((s + UNIT) * (dim - 1)) / (2 * UNIT)
    }
}

/// The screen coordinate of a cell's centre along one axis:
/// `p * 2 / (dim - 1) - 1`, in fixed-point steps.
pub open spec fn axis_to_screen(p: int, dim: int) -> int {
    (p * 2 * UNIT) / (dim - 1) - UNIT
}

pub open spec fn screen_to_image(c: ScreenCoord) -> ImageCoord {
    ImageCoord {
        x: axis_to_image(c.x as int, WIDTH as int) as usize,
        y: axis_to_image(c.y as int, HEIGHT as int) as usize,
    }
}

pub open spec fn image_to_screen(c: ImageCoord) -> ScreenCoord {
    ScreenCoord {
        x: axis_to_screen(c.x as int, WIDTH as int) as i32,
        y: axis_to_screen(c.y as int, HEIGHT as int) as i32,
    }
}

fn axis_cell(s: i32, dim: usize) -> (p: usize)
    requires
        1 <= dim <= 1024,
    ensures
        p == axis_to_image(s as int, dim as int),
{
    let shifted: i64 = s as i64 + UNIT as i64;
    if shifted <= 0 {
        0
    } else {
        let steps: u64 = shifted as u64;
        let cells: u64 = dim as u64 - 1;
        assert(steps * cells <= 0x8000_6500 * 1023) by (nonlinear_arith)
            requires
                steps <= 0x8000_6500,
                cells <= 1023,
        ;
        let scaled: u64 = steps * cells;
        (scaled / (2 * UNIT as u64)) as usize
    }
}

/// Maps a point of screen space to the grid cell it falls into.
pub fn screen_to_image_coord(screen_coord: ScreenCoord) -> (image_coord: ImageCoord)
    ensures
        image_coord == screen_to_image(screen_coord),
        image_coord.x == axis_to_image(screen_coord.x as int, WIDTH as int),
        image_coord.y == axis_to_image(screen_coord.y as int, HEIGHT as int),
{
    ImageCoord { x: axis_cell(screen_coord.x, WIDTH), y: axis_cell(screen_coord.y, HEIGHT) }
}

/// Maps a grid cell to the screen-space point at its centre.
pub fn image_to_screen_coord(image_coord: ImageCoord) -> (screen_coord: ScreenCoord)
    requires
        image_coord.in_bounds(),
    ensures
        screen_coord == image_to_screen(image_coord),
        screen_coord.x == axis_to_screen(image_coord.x as int, WIDTH as int),
        screen_coord.y == axis_to_screen(image_coord.y as int, HEIGHT as int),
{
    let x: i32 = (image_coord.x as i32 * 2 * UNIT) / (WIDTH as i32 - 1) - UNIT;
    let y: i32 = (image_coord.y as i32 * 2 * UNIT) / (HEIGHT as i32 - 1) - UNIT;
    ScreenCoord { x, y }
}

/// Cell centres are exact in fixed point: neighbouring centres are 256 steps
/// apart, and no rounding takes place.
pub proof fn lemma_centre_exact(p: ImageCoord)
    requires
        p.in_bounds(),
    ensures
        image_to_screen(p).x == 256 * p.x - UNIT,
        image_to_screen(p).y == 256 * p.y - UNIT,
        image_to_screen(p).x * (WIDTH - 1) == p.x * 2 * UNIT - UNIT * (WIDTH - 1),
        image_to_screen(p).y * (HEIGHT - 1) == p.y * 2 * UNIT - UNIT * (HEIGHT - 1),
{
}

/// Every cell of the grid is found again from its centre.
pub proof fn lemma_cell_round_trip(p: ImageCoord)
    requires
        p.in_bounds(),
    ensures
        screen_to_image(image_to_screen(p)) == p,
{
    lemma_centre_exact(p);
}

/// The four corners of the screen, `(-1, -1)`, `(-1, 1)`, `(1, -1)` and
/// `(1, 1)`, come back unchanged from the trip to the grid and back.
pub proof fn lemma_corner_round_trip(c: ScreenCoord)
    requires
        c.x == UNIT || c.x == -UNIT,
        c.y == UNIT || c.y == -UNIT,
    ensures
        screen_to_image(c).in_bounds(),
        image_to_screen(screen_to_image(c)) == c,
{
    assert(2 * UNIT == 51712);
    assert(((UNIT + UNIT) * (203 - 1)) / (2 * UNIT) == 202);
}

/// Every point of the screen `[-1, 1] x [-1, 1]` falls into a cell of the grid.
pub proof fn lemma_screen_maps_into_grid(c: ScreenCoord)
    requires
        -UNIT <= c.x <= UNIT,
        -UNIT <= c.y <= UNIT,
    ensures
        screen_to_image(c).in_bounds(),
{
}

} // verus!
