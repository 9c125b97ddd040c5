//! Pixels and rasters.
//!
//! A pixel is four 8-bit samples (red, green, blue, alpha).  Transparency is
//! binary: an alpha below [`ALPHA_CUTOFF`] means that the pixel is not there.

use vstd::prelude::*;

verus! {

/// Red, green and blue.
pub type Rgb = [u8; 3];

/// Red, green, blue and alpha.
pub type Rgba = [u8; 4];

/// Samples whose alpha lies below this value count as fully transparent.
pub const ALPHA_CUTOFF: u8 = 128;

/// Whether a pixel counts as fully transparent.
pub open spec fn is_transparent(pixel: Rgba) -> bool {
    pixel[3] < ALPHA_CUTOFF
}

/// Whether a pixel is near-white background: each of red, green and blue lies
/// above `255 - threshold`.
pub open spec fn is_background(pixel: Rgba, threshold: u8) -> bool {
    &&& pixel[0] > 255 - threshold
    &&& pixel[1] > 255 - threshold
    &&& pixel[2] > 255 - threshold
}

/// Whether a pixel is left out of the pattern: it is transparent, or
/// background removal is on and the pixel is background.
pub open spec fn is_excluded(pixel: Rgba, remove_background: bool, threshold: u8) -> bool {
    is_transparent(pixel) || (remove_background && is_background(pixel, threshold))
}

/// The colour part of a pixel.
pub open spec fn color_of(pixel: Rgba) -> Rgb {
    [pixel[0], pixel[1], pixel[2]]
}

/// The opaque pixel of a colour.
pub open spec fn opaque_pixel(color: Rgb) -> Rgba {
    [color[0], color[1], color[2], 255u8]
}

/// Whether two pixels show the same colour, whatever their alpha.
pub open spec fn same_rgb(a: Rgba, b: Rgba) -> bool {
    a[0] == b[0] && a[1] == b[1] && a[2] == b[2]
}

/// Whether a pixel counts as fully transparent.
pub fn pixel_is_transparent(pixel: &Rgba) -> (hidden: bool)
    ensures
        hidden == is_transparent(*pixel),
{
    pixel[3] < ALPHA_CUTOFF
}

/// Whether a pixel is near-white background for the given threshold.
pub fn pixel_is_background(pixel: &Rgba, threshold: u8) -> (background: bool)
    ensures
        background == is_background(*pixel, threshold),
{
    let floor: u8 = 255 - threshold;
    pixel[0] > floor && pixel[1] > floor && pixel[2] > floor
}

/// Whether a pixel is left out of the pattern.
pub fn pixel_is_excluded(pixel: &Rgba, remove_background: bool, threshold: u8) -> (excluded: bool)
    ensures
        excluded == is_excluded(*pixel, remove_background, threshold),
{
    pixel_is_transparent(pixel) || (remove_background && pixel_is_background(pixel, threshold))
}

/// The colour part of a pixel.
pub fn rgb_of(pixel: &Rgba) -> (color: Rgb)
    ensures
        color == color_of(*pixel),
{
    let color = [pixel[0], pixel[1], pixel[2]];
    assert(color =~= color_of(*pixel));
    color
}

/// The opaque pixel of a colour.
pub fn opaque(color: &Rgb) -> (pixel: Rgba)
    ensures
        pixel == opaque_pixel(*color),
{
    let pixel = [color[0], color[1], color[2], 255];
    assert(pixel =~= opaque_pixel(*color));
    pixel
}

/// A rectangular grid of pixels, stored row by row from the top.
pub struct Raster {
    pub width: usize,
    pub height: usize,
    pub pixels: Vec<Rgba>,
}

impl Raster {
    /// The pixel count matches the dimensions.
    pub open spec fn wf(&self) -> bool {
        self.pixels@.len() == self.width * self.height
    }

    /// The pixel in column `x` of row `y`.
    pub open spec fn at(&self, x: int, y: int) -> Rgba {
        self.pixels@[y * self.width + x]
    }

    /// Wraps a row-major pixel buffer.  `None` when the buffer does not hold
    /// exactly `width * height` pixels.
    pub fn new(width: usize, height: usize, pixels: Vec<Rgba>) -> (raster: Option<Raster>)
        ensures
            raster is Some <==> pixels@.len() == width * height,
            raster matches Some(r) ==> r.wf() && r.width == width && r.height == height
                && r.pixels@ == pixels@,
    {
        let given = pixels.len();
        match width.checked_mul(height) {
            Some(count) => {
                if count == given {
                    Some(Raster { width, height, pixels })
                } else {
                    None
                }
            },
            None => None,
        }
    }

    /// The pixel in column `x` of row `y`.
    pub fn pixel(&self, x: usize, y: usize) -> (pixel: Rgba)
        requires
            self.wf(),
            x < self.width,
            y < self.height,
        ensures
            pixel == self.at(x as int, y as int),
    {
        let count = self.pixels.len();
        proof {
            lemma_cell_in_range(x as int, y as int, self.width as int, self.height as int);
        }
        self.pixels[y * self.width + x]
    }
}

/// A cell of a `width` by `height` grid has a row-major index below
/// `width * height`.
pub proof fn lemma_cell_in_range(x: int, y: int, width: int, height: int)
    requires
        0 <= x < width,
        0 <= y < height,
    ensures
        0 <= y * width + x < width * height,
        0 <= y * width <= y * width + x,
{
    assert(y * width + x < width * height) by (nonlinear_arith)
        requires
            0 <= x < width,
            0 <= y < height,
    ;
    assert(0 <= y * width) by (nonlinear_arith)
        requires
            0 <= y,
            0 <= width,
    ;
}

} // verus!
