//! The image buffer: a fixed grid of 8-bit RGB pixels, stored row by row.

use vstd::prelude::*;
use crate::coord::{ImageCoord, WIDTH, HEIGHT};

verus! {

/// An RGB colour with 8-bit channels.
#[derive(Debug, PartialEq, Eq, Clone, Copy, Structural)]
pub struct Color {
    pub r: u8,
    pub g: u8,
    pub b: u8,
}

impl Color {
    /// The gray whose three channels all equal `level`.
    pub open spec fn gray(level: int) -> Color {
        Color { r: level as u8, g: level as u8, b: level as u8 }
    }
}

/// Number of pixels of an image.
pub open spec fn pixel_count() -> int {
    WIDTH * HEIGHT
}

/// Position of a cell in row-major order.
pub open spec fn index_of(c: ImageCoord) -> int {
    c.y * WIDTH + c.x
}

/// The pixels of an image that is black all over.
pub open spec fn blank() -> Seq<Color> {
    Seq::new(pixel_count() as nat, |i: int| Color::gray(0))
}

/// A `WIDTH` by `HEIGHT` grid of pixels.
///
/// Its view is the sequence of its pixels in row-major order, top row first;
/// the sequence always holds `WIDTH * HEIGHT` pixels.
#[derive(Debug)]
pub struct Image {
    pixels: Vec<Color>,
}

impl View for Image {
    type V = Seq<Color>;

    closed spec fn view(&self) -> Seq<Color> {
        self.pixels@
    }
}

impl Image {
    /// Whether the image holds exactly one pixel for each cell of the grid.
    pub open spec fn wf(&self) -> bool {
        self@.len() == pixel_count()
    }

    /// The colour stored at a cell.
    pub open spec fn pixel(&self, c: ImageCoord) -> Color {
        self@[index_of(c)]
    }

    /// An image whose pixels are all black.
    pub fn new() -> (image: Image)
        ensures
            image.wf(),
            image@ == blank(),
    {
        let mut pixels: Vec<Color> = Vec::new();
        let mut i: usize = 0;
        while i < WIDTH * HEIGHT
            invariant
                i <= WIDTH * HEIGHT,
                pixels.len() == i,
                forall|j: int| 0 <= j < i ==> pixels[j] == Color::gray(0),
            decreases WIDTH * HEIGHT - i,
        {
            pixels.push(Color { r: 0, g: 0, b: 0 });
            i += 1;
        }
        let image = Image { pixels };
        assert(image@ =~= blank());
        image
    }

    /// The colour at `coord`, or `None` where `coord` lies off the grid.
    pub fn get(&self, coord: ImageCoord) -> (color: Option<Color>)
        requires
            self.wf(),
        ensures
            coord.in_bounds() ==> color == Some(self.pixel(coord)),
            !coord.in_bounds() ==> color.is_none(),
    {
        if coord.x < WIDTH && coord.y < HEIGHT {
            Some(self.pixels[coord.y * WIDTH + coord.x])
        } else {
            None
        }
    }

    /// The pixels in row-major order.
    pub fn pixels(&self) -> (pixels: &Vec<Color>)
        ensures
            pixels@ == self@,
    {
        &self.pixels
    }

    /// Stores `color` at `coord` and leaves every other pixel as it was.
    pub fn set(&mut self, coord: ImageCoord, color: Color)
        requires
            old(self).wf(),
            coord.in_bounds(),
        ensures
            final(self).wf(),
            final(self)@ == old(self)@.update(index_of(coord), color),
    {
        self.pixels.set(coord.y * WIDTH + coord.x, color);
    }
}

} // verus!
