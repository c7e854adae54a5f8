//! One image of an archive.

use vstd::prelude::*;
use crate::lgr::picture::Picture;

verus! {

/// Image from an archive.
#[derive(Debug, Clone)]
pub struct Image {
    /// The description of the picture, where the archive lists one.
    pub info: Option<Picture>,
    /// Width of the image.
    pub width: u16,
    /// Height of the image.
    pub height: u16,
    /// Image pixels, row by row; each pixel is an index into the archive's
    /// palette. Empty unless the archive was read with its pixels.
    pub pixels: Vec<u8>,
    /// Raw content of the PCX file. Empty unless the archive was read with
    /// its raw images.
    pub pcx: Vec<u8>,
}

/// Mathematical model of [`Image`].
pub struct ImageModel {
    pub info: Option<Picture>,
    pub width: u16,
    pub height: u16,
    pub pixels: Seq<u8>,
    pub pcx: Seq<u8>,
}

impl View for Image {
    type V = ImageModel;

    open spec fn view(&self) -> ImageModel {
        ImageModel {
            info: self.info,
            width: self.width,
            height: self.height,
            pixels: self.pixels@,
            pcx: self.pcx@,
        }
    }
}

impl ImageModel {
    /// Whether the image holds one pixel for each place of its area.
    pub open spec fn has_pixels(self) -> bool {
        self.pixels.len() == self.width * self.height
    }

    /// The pixel in column `x` of row `y`.
    pub open spec fn pixel(self, x: int, y: int) -> u8 {
        self.pixels[y * self.width + x]
    }
}

impl Image {
    /// The pixel in column `x` of row `y`: an index into the archive's
    /// palette.
    pub fn get_pixel(&self, x: u16, y: u16) -> (pixel: u8)
        requires
            self@.has_pixels(),
            x < self.width,
            y < self.height,
        ensures
            pixel == self@.pixel(x as int, y as int),
    {
        assert(y * self.width + x < self.width * self.height) by (nonlinear_arith)
            requires
                0 <= x < self.width,
                0 <= y < self.height,
        ;
        assert(y * self.width <= 65535 * 65535) by (nonlinear_arith)
            requires
                0 <= y <= 65535,
                0 <= self.width <= 65535,
        ;
        self.pixels[(y as usize) * (self.width as usize) + (x as usize)]
    }
}

} // verus!
