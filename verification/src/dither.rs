//! Approximating an image with the colours of a palette.
//!
//! Four modes exist.  `Off` leaves the image as it is.  `Ordered` shifts each
//! pixel by a threshold from a 4x4 Bayer matrix and takes the nearest palette
//! colour; every pixel is handled on its own.  `FloydSteinberg` and `Atkinson`
//! carry the rounding error of each pixel over to its neighbours.  Their error
//! accumulators are fractional, so the arithmetic is done by the caller in
//! floating point; this module decides which neighbours receive which share.

use vstd::arithmetic::div_mod::lemma_fundamental_div_mod_converse;
use vstd::prelude::*;

use crate::raster::{is_transparent, lemma_cell_in_range, pixel_is_transparent, Raster, Rgba};
use crate::text::same_text;
use crate::threads::color_matching::sample_distance_squared;

verus! {

/// How an image is mapped onto a palette.
#[derive(Debug, Clone, Copy, PartialEq, Eq, Structural)]
pub enum DitherMode {
    Off,
    FloydSteinberg,
    Ordered,
    Atkinson,
}

impl DitherMode {
    /// The name under which the mode is selected.
    pub open spec fn name(self) -> Seq<char> {
        match self {
            DitherMode::Off => "none"@,
            DitherMode::FloydSteinberg => "floyd_steinberg"@,
            DitherMode::Ordered => "ordered"@,
            DitherMode::Atkinson => "atkinson"@,
        }
    }

    /// The mode that a name selects.  A name that selects none means no
    /// dithering.
    pub open spec fn named(name: Seq<char>) -> DitherMode {
        if name == "floyd_steinberg"@ {
            DitherMode::FloydSteinberg
        } else if name == "ordered"@ {
            DitherMode::Ordered
        } else if name == "atkinson"@ {
            DitherMode::Atkinson
        } else {
            DitherMode::Off
        }
    }

    /// The mode's name.
    pub fn as_str(&self) -> (name: &'static str)
        ensures
            name@ == self.name(),
    {
        match self {
            DitherMode::Off => "none",
            DitherMode::FloydSteinberg => "floyd_steinberg",
            DitherMode::Ordered => "ordered",
            DitherMode::Atkinson => "atkinson",
        }
    }

    /// Selects a mode by name; an unknown name selects `Off`.
    pub fn from_name(name: &str) -> (mode: DitherMode)
        ensures
            mode == Self::named(name@),
    {
        if same_text(name, "floyd_steinberg") {
            DitherMode::FloydSteinberg
        } else if same_text(name, "ordered") {
            DitherMode::Ordered
        } else if same_text(name, "atkinson") {
            DitherMode::Atkinson
        } else {
            DitherMode::Off
        }
    }
}

// ---------------------------------------------------------------------------
// The nearest palette colour
// ---------------------------------------------------------------------------

/// Squared Euclidean distance between the colours of two pixels.
pub open spec fn rgb_gap(a: Rgba, b: Rgba) -> int {
    let dr = a[0] as int - b[0] as int;
    let dg = a[1] as int - b[1] as int;
    let db = a[2] as int - b[2] as int;
    dr * dr + dg * dg + db * db
}

/// Whether the palette has an entry that is not transparent.
pub open spec fn has_opaque(palette: Seq<Rgba>) -> bool {
    exists|i: int| 0 <= i < palette.len() && !is_transparent(#[trigger] palette[i])
}

/// Entry `i` is the nearest to `pixel` among the entries that are not
/// transparent, and the first of those that are as near.
pub open spec fn is_closest(palette: Seq<Rgba>, pixel: Rgba, i: int) -> bool {
    &&& 0 <= i < palette.len()
    &&& !is_transparent(palette[i])
    &&& forall|j: int|
        0 <= j < palette.len() && !is_transparent(#[trigger] palette[j]) ==> rgb_gap(
            pixel,
            palette[i],
        ) <= rgb_gap(pixel, palette[j])
    &&& forall|j: int|
        0 <= j < i && !is_transparent(#[trigger] palette[j]) ==> rgb_gap(pixel, palette[i])
            < rgb_gap(pixel, palette[j])
}

/// The index of the palette entry nearest to `pixel`.
pub open spec fn closest_index(palette: Seq<Rgba>, pixel: Rgba) -> int {
    choose|i: int| is_closest(palette, pixel, i)
}

/// There is exactly one nearest entry.
pub proof fn lemma_closest_unique(palette: Seq<Rgba>, pixel: Rgba, i: int)
    requires
        is_closest(palette, pixel, i),
    ensures
        has_opaque(palette),
        closest_index(palette, pixel) == i,
{
    let k = closest_index(palette, pixel);
    assert(is_closest(palette, pixel, k));
    if k < i {
        assert(!is_transparent(palette[k]));
    }
    if i < k {
        assert(!is_transparent(palette[i]));
    }
}

/// The entry nearest to `pixel` among the first `n`, if one of them is not
/// transparent.
proof fn closest_among(palette: Seq<Rgba>, pixel: Rgba, n: int) -> (best: int)
    requires
        0 <= n <= palette.len(),
    ensures
        best == -1 ==> forall|k: int| 0 <= k < n ==> is_transparent(#[trigger] palette[k]),
        best != -1 ==> is_closest(palette.take(n), pixel, best),
    decreases n,
{
    if n == 0 {
        -1
    } else {
        let before = closest_among(palette, pixel, n - 1);
        let last = palette[n - 1];
        let front = palette.take(n - 1);
        let all = palette.take(n);
        assert forall|k: int| 0 <= k < n - 1 implies #[trigger] all[k] == front[k] by {}
        if is_transparent(last) {
            if before != -1 {
                assert(is_closest(front, pixel, before));
                assert forall|j: int| 0 <= j < all.len() && !is_transparent(#[trigger] all[j]) implies rgb_gap(
                    pixel,
                    all[before],
                ) <= rgb_gap(pixel, all[j]) by {
                    assert(all[j] == front[j]);
                }
                assert forall|j: int| 0 <= j < before && !is_transparent(#[trigger] all[j]) implies rgb_gap(
                    pixel,
                    all[before],
                ) < rgb_gap(pixel, all[j]) by {
                    assert(all[j] == front[j]);
                }
            }
            before
        } else if before == -1 {
            assert forall|j: int| 0 <= j < n - 1 implies is_transparent(#[trigger] all[j]) by {
                assert(all[j] == palette[j]);
            }
            n - 1
        } else if rgb_gap(pixel, last) < rgb_gap(pixel, palette[before]) {
            assert(is_closest(front, pixel, before));
            assert forall|j: int| 0 <= j < all.len() && !is_transparent(#[trigger] all[j]) implies rgb_gap(
                pixel,
                all[n - 1],
            ) <= rgb_gap(pixel, all[j]) by {
                if j < n - 1 {
                    assert(all[j] == front[j]);
                }
            }
            assert forall|j: int| 0 <= j < n - 1 && !is_transparent(#[trigger] all[j]) implies rgb_gap(
                pixel,
                all[n - 1],
            ) < rgb_gap(pixel, all[j]) by {
                assert(all[j] == front[j]);
            }
            n - 1
        } else {
            assert(is_closest(front, pixel, before));
            assert forall|j: int| 0 <= j < all.len() && !is_transparent(#[trigger] all[j]) implies rgb_gap(
                pixel,
                all[before],
            ) <= rgb_gap(pixel, all[j]) by {
                if j < n - 1 {
                    assert(all[j] == front[j]);
                }
            }
            assert forall|j: int| 0 <= j < before && !is_transparent(#[trigger] all[j]) implies rgb_gap(
                pixel,
                all[before],
            ) < rgb_gap(pixel, all[j]) by {
                assert(all[j] == front[j]);
            }
            before
        }
    }
}

/// A palette with an entry that is not transparent has a nearest entry for
/// every pixel.
pub proof fn lemma_closest_exists(palette: Seq<Rgba>, pixel: Rgba)
    requires
        has_opaque(palette),
    ensures
        is_closest(palette, pixel, closest_index(palette, pixel)),
{
    let best = closest_among(palette, pixel, palette.len() as int);
    assert(palette.take(palette.len() as int) =~= palette);
    let w = choose|w: int| 0 <= w < palette.len() && !is_transparent(#[trigger] palette[w]);
    assert(best != -1);
}

fn rgb_gap_of(a: &Rgba, b: &Rgba) -> (gap: u32)
    ensures
        gap == rgb_gap(*a, *b),
{
    sample_distance_squared(a[0], b[0]) + sample_distance_squared(a[1], b[1])
        + sample_distance_squared(a[2], b[2])
}

/// The index of the palette entry nearest to `pixel` in RGB space.  Entries
/// that are transparent are skipped; of entries equally near the first wins.
/// `None` when every entry is transparent.
pub fn find_closest_index(pixel: &Rgba, palette: &Vec<Rgba>) -> (found: Option<usize>)
    ensures
        found is Some <==> has_opaque(palette@),
        found matches Some(i) ==> is_closest(palette@, *pixel, i as int),
        found matches Some(i) ==> i as int == closest_index(palette@, *pixel),
{
    let mut best: Option<usize> = None;
    let mut best_gap: u32 = 0;
    let mut j: usize = 0;
    while j < palette.len()
        invariant
            j <= palette.len(),
            best is None ==> forall|k: int| 0 <= k < j ==> is_transparent(#[trigger] palette@[k]),
            best matches Some(i) ==> {
                &&& i < j
                &&& !is_transparent(palette@[i as int])
                &&& best_gap == rgb_gap(*pixel, palette@[i as int])
                &&& forall|k: int|
                    0 <= k < j && !is_transparent(#[trigger] palette@[k]) ==> best_gap <= rgb_gap(
                        *pixel,
                        palette@[k],
                    )
                &&& forall|k: int|
                    0 <= k < i && !is_transparent(#[trigger] palette@[k]) ==> best_gap < rgb_gap(
                        *pixel,
                        palette@[k],
                    )
            },
        decreases palette.len() - j,
    {
        if !pixel_is_transparent(&palette[j]) {
            let gap = rgb_gap_of(pixel, &palette[j]);
            let better = match best {
                None => true,
                Some(_) => gap < best_gap,
            };
            if better {
                best = Some(j);
                best_gap = gap;
            }
        }
        j += 1;
    }
    proof {
        match best {
            Some(i) => {
                lemma_closest_unique(palette@, *pixel, i as int);
            },
            None => {},
        }
    }
    best
}

// ---------------------------------------------------------------------------
// Ordered dithering
// ---------------------------------------------------------------------------

/// The 4x4 Bayer threshold matrix, row by row.
pub open spec fn bayer_matrix() -> Seq<int> {
    seq![0, 8, 2, 10, 12, 4, 14, 6, 3, 11, 1, 9, 15, 7, 13, 5]
}

/// What ordered dithering adds to each colour sample of the pixel in column
/// `x` of row `y`: `(m / 16 - 1/2) * 64` for the matrix entry `m` of that
/// cell, which is `4 * m - 32`.
pub open spec fn ordered_offset(x: int, y: int) -> int {
    4 * bayer_matrix()[(y % 4) * 4 + x % 4] - 32
}

/// `v` limited to the range of a sample.
pub open spec fn clamp_sample(v: int) -> u8 {
    if v < 0 {
        0u8
    } else if v > 255 {
        255u8
    } else {
        v as u8
    }
}

/// `pixel` with `offset` added to each colour sample and the sums limited to
/// the range of a sample.
pub open spec fn shifted(pixel: Rgba, offset: int) -> Rgba {
    [
        clamp_sample(pixel[0] + offset),
        clamp_sample(pixel[1] + offset),
        clamp_sample(pixel[2] + offset),
        pixel[3],
    ]
}

/// The palette entry that stands for `pixel` when `probe` is what is looked
/// up.  A transparent pixel stays as it is, and so does every pixel when the
/// palette has no entry to offer.
pub open spec fn quantized(pixel: Rgba, probe: Rgba, palette: Seq<Rgba>) -> Rgba {
    if is_transparent(pixel) || !has_opaque(palette) {
        pixel
    } else {
        palette[closest_index(palette, probe)]
    }
}

/// What a mode that handles each pixel on its own makes of the pixel in
/// column `x` of row `y`.
pub open spec fn dithered_pixel(mode: DitherMode, pixel: Rgba, x: int, y: int, palette: Seq<Rgba>) -> Rgba {
    match mode {
        DitherMode::Ordered => quantized(pixel, shifted(pixel, ordered_offset(x, y)), palette),
        _ => pixel,
    }
}

fn bayer_offset(x: usize, y: usize) -> (offset: i32)
    ensures
        offset == ordered_offset(x as int, y as int),
        -32 <= offset <= 28,
{
    let matrix: [i32; 16] = [0, 8, 2, 10, 12, 4, 14, 6, 3, 11, 1, 9, 15, 7, 13, 5];
    let cell = (y % 4) * 4 + x % 4;
    assert(matrix@ =~= bayer_matrix().map_values(|m: int| m as i32));
    4 * matrix[cell] - 32
}

fn clamp_to_sample(v: i32) -> (sample: u8)
    ensures
        sample == clamp_sample(v as int),
{
    if v < 0 {
        0
    } else if v > 255 {
        255
    } else {
        v as u8
    }
}

fn shift_pixel(pixel: &Rgba, offset: i32) -> (probe: Rgba)
    requires
        -1024 <= offset <= 1024,
    ensures
        probe == shifted(*pixel, offset as int),
{
    let probe = [
        clamp_to_sample(pixel[0] as i32 + offset),
        clamp_to_sample(pixel[1] as i32 + offset),
        clamp_to_sample(pixel[2] as i32 + offset),
        pixel[3],
    ];
    assert(probe =~= shifted(*pixel, offset as int));
    probe
}

/// Maps one pixel onto the palette by ordered dithering.
pub fn ordered_pixel(pixel: &Rgba, x: usize, y: usize, palette: &Vec<Rgba>) -> (out: Rgba)
    ensures
        out == dithered_pixel(DitherMode::Ordered, *pixel, x as int, y as int, palette@),
{
    if pixel_is_transparent(pixel) {
        return *pixel;
    }
    let probe = shift_pixel(pixel, bayer_offset(x, y));
    match find_closest_index(&probe, palette) {
        Some(i) => palette[i],
        None => *pixel,
    }
}

// ---------------------------------------------------------------------------
// Error diffusion
// ---------------------------------------------------------------------------

/// One neighbour of an error-diffusion kernel: where it lies relative to the
/// pixel at hand, and how many parts of the error it receives.
#[derive(Debug, Clone, Copy, PartialEq, Eq, Structural)]
pub struct Tap {
    pub dx: i8,
    pub dy: u8,
    pub weight: u8,
}

/// A neighbour inside the raster that receives `weight` parts of an error.
#[derive(Debug, Clone, Copy, PartialEq, Eq, Structural)]
pub struct Target {
    pub x: usize,
    pub y: usize,
    pub weight: u8,
}

/// The neighbours of Floyd-Steinberg diffusion, in sixteenths: 7 to the
/// right, then 3, 5 and 1 to the row below from left to right.
pub open spec fn floyd_steinberg_taps() -> Seq<Tap> {
    seq![
        Tap { dx: 1, dy: 0, weight: 7 },
        Tap { dx: -1i8, dy: 1, weight: 3 },
        Tap { dx: 0, dy: 1, weight: 5 },
        Tap { dx: 1, dy: 1, weight: 1 },
    ]
}

/// The neighbours of Atkinson diffusion, one eighth each: two to the right,
/// three in the row below, one two rows below.
pub open spec fn atkinson_taps() -> Seq<Tap> {
    seq![
        Tap { dx: 1, dy: 0, weight: 1 },
        Tap { dx: 2, dy: 0, weight: 1 },
        Tap { dx: -1i8, dy: 1, weight: 1 },
        Tap { dx: 0, dy: 1, weight: 1 },
        Tap { dx: 1, dy: 1, weight: 1 },
        Tap { dx: 0, dy: 2, weight: 1 },
    ]
}

/// The neighbours to which a mode carries error; none for the modes that
/// handle each pixel on its own.
pub open spec fn taps_of(mode: DitherMode) -> Seq<Tap> {
    match mode {
        DitherMode::FloydSteinberg => floyd_steinberg_taps(),
        DitherMode::Atkinson => atkinson_taps(),
        _ => Seq::empty(),
    }
}

/// Into how many parts a mode divides an error.
pub open spec fn denominator_of(mode: DitherMode) -> int {
    match mode {
        DitherMode::FloydSteinberg => 16,
        DitherMode::Atkinson => 8,
        _ => 1,
    }
}

/// Whether the neighbour `tap` of the pixel at `(x, y)` lies inside a raster
/// of `width` by `height` pixels.
pub open spec fn tap_in_bounds(tap: Tap, x: int, y: int, width: int, height: int) -> bool {
    0 <= x + tap.dx < width && y + tap.dy < height
}

/// The neighbours of the pixel at `(x, y)` that lie inside the raster, in
/// kernel order.  A neighbour outside is dropped; none wraps round to another
/// row or column.
pub open spec fn targets_of(taps: Seq<Tap>, x: int, y: int, width: int, height: int) -> Seq<Target>
    decreases taps.len(),
{
    if taps.len() == 0 {
        Seq::empty()
    } else {
        let rest = targets_of(taps.drop_last(), x, y, width, height);
        let tap = taps.last();
        if tap_in_bounds(tap, x, y, width, height) {
            rest.push(Target { x: (x + tap.dx) as usize, y: (y + tap.dy) as usize, weight: tap.weight })
        } else {
            rest
        }
    }
}

/// The parts of an error that a list of neighbours receives together.
pub open spec fn weight_sum(targets: Seq<Target>) -> int
    decreases targets.len(),
{
    if targets.len() == 0 {
        0
    } else {
        weight_sum(targets.drop_last()) + targets.last().weight
    }
}

/// The parts of an error that a kernel hands out when no neighbour is
/// dropped.
pub open spec fn tap_weight_sum(taps: Seq<Tap>) -> int
    decreases taps.len(),
{
    if taps.len() == 0 {
        0
    } else {
        tap_weight_sum(taps.drop_last()) + taps.last().weight
    }
}

/// An error-diffusion kernel: its neighbours and the number of parts into
/// which an error is divided.
pub struct ErrorKernel {
    pub taps: Vec<Tap>,
    pub denominator: u8,
}

impl ErrorKernel {
    /// The kernel of an error-diffusion mode; `None` for the modes that carry
    /// no error.
    pub fn of(mode: DitherMode) -> (kernel: Option<ErrorKernel>)
        ensures
            kernel is Some <==> (mode == DitherMode::FloydSteinberg || mode == DitherMode::Atkinson),
            kernel matches Some(k) ==> k.taps@ == taps_of(mode) && k.denominator == denominator_of(mode),
    {
        match mode {
            DitherMode::FloydSteinberg => {
                let mut taps: Vec<Tap> = Vec::new();
                taps.push(Tap { dx: 1, dy: 0, weight: 7 });
                taps.push(Tap { dx: -1, dy: 1, weight: 3 });
                taps.push(Tap { dx: 0, dy: 1, weight: 5 });
                taps.push(Tap { dx: 1, dy: 1, weight: 1 });
                assert(taps@ =~= floyd_steinberg_taps());
                Some(ErrorKernel { taps, denominator: 16 })
            },
            DitherMode::Atkinson => {
                let mut taps: Vec<Tap> = Vec::new();
                taps.push(Tap { dx: 1, dy: 0, weight: 1 });
                taps.push(Tap { dx: 2, dy: 0, weight: 1 });
                taps.push(Tap { dx: -1, dy: 1, weight: 1 });
                taps.push(Tap { dx: 0, dy: 1, weight: 1 });
                taps.push(Tap { dx: 1, dy: 1, weight: 1 });
                taps.push(Tap { dx: 0, dy: 2, weight: 1 });
                assert(taps@ =~= atkinson_taps());
                Some(ErrorKernel { taps, denominator: 8 })
            },
            _ => None,
        }
    }

    /// The neighbours of the pixel at `(x, y)` that receive error, each with
    /// its number of parts.
    pub fn targets(&self, x: usize, y: usize, width: usize, height: usize) -> (targets: Vec<Target>)
        ensures
            targets@ == targets_of(self.taps@, x as int, y as int, width as int, height as int),
    {
        let mut targets: Vec<Target> = Vec::new();
        let mut i: usize = 0;
        while i < self.taps.len()
            invariant
                i <= self.taps.len(),
                targets@ == targets_of(
                    self.taps@.take(i as int),
                    x as int,
                    y as int,
                    width as int,
                    height as int,
                ),
            decreases self.taps.len() - i,
        {
            let tap = self.taps[i];
            proof {
                assert(self.taps@.take(i + 1).drop_last() =~= self.taps@.take(i as int));
                assert(self.taps@.take(i + 1).last() == tap);
            }
            let column = x as i128 + tap.dx as i128;
            let row = y as i128 + tap.dy as i128;
            if 0 <= column && column < width as i128 && row < height as i128 {
                targets.push(Target { x: column as usize, y: row as usize, weight: tap.weight });
            }
            i += 1;
        }
        proof {
            assert(self.taps@.take(self.taps.len() as int) =~= self.taps@);
        }
        targets
    }
}

// ---------------------------------------------------------------------------
// Dithering a raster
// ---------------------------------------------------------------------------

/// What dithering leaves to do.
pub enum DitherStep {
    /// The mode handles each pixel on its own, and this is the result.
    Done(Raster),
    /// The mode carries error between pixels: the caller walks the raster
    /// row by row and hands the error of each pixel to the neighbours that
    /// this kernel names.
    Diffuse(ErrorKernel),
}

/// `out` is `image` dithered by a mode that handles each pixel on its own.
pub open spec fn is_dithered(out: Raster, image: Raster, palette: Seq<Rgba>, mode: DitherMode) -> bool {
    &&& out.wf()
    &&& out.width == image.width
    &&& out.height == image.height
    &&& forall|x: int, y: int|
        0 <= x < image.width && 0 <= y < image.height ==> #[trigger] out.at(x, y) == dithered_pixel(
            mode,
            image.at(x, y),
            x,
            y,
            palette,
        )
}

/// Dithers `image` onto `palette`.  `Off` copies the image and `Ordered`
/// thresholds each pixel; for the two error-diffusion modes the result is the
/// kernel by which the caller diffuses.
pub fn dither(image: &Raster, palette: &Vec<Rgba>, mode: DitherMode) -> (step: DitherStep)
    requires
        image.wf(),
    ensures
        match mode {
            DitherMode::Off | DitherMode::Ordered => step matches DitherStep::Done(out) && is_dithered(
                out,
                *image,
                palette@,
                mode,
            ) && (mode == DitherMode::Off ==> out.pixels@ == image.pixels@),
            _ => step matches DitherStep::Diffuse(kernel) && kernel.taps@ == taps_of(mode)
                && kernel.denominator == denominator_of(mode),
        },
{
    match ErrorKernel::of(mode) {
        Some(kernel) => {
            return DitherStep::Diffuse(kernel);
        },
        None => {},
    }
    let width = image.width;
    let height = image.height;
    let count = image.pixels.len();
    let mut pixels: Vec<Rgba> = Vec::with_capacity(count);
    let mut x: usize = 0;
    let mut y: usize = 0;
    let mut i: usize = 0;
    proof {
        if count > 0 {
            assert(width > 0 && height > 0) by (nonlinear_arith)
                requires
                    width * height == count,
                    count > 0,
            ;
        }
    }
    while i < count
        invariant
            image.wf(),
            width == image.width,
            height == image.height,
            count == image.pixels@.len(),
            mode == DitherMode::Off || mode == DitherMode::Ordered,
            i <= count,
            i == y * width + x,
            i < count ==> x < width && y < height,
            pixels@.len() == i,
            forall|k: int|
                0 <= k < i ==> #[trigger] pixels@[k] == dithered_pixel(
                    mode,
                    image.pixels@[k],
                    k % (width as int),
                    k / (width as int),
                    palette@,
                ),
        decreases count - i,
    {
        let source = image.pixels[i];
        let out = match mode {
            DitherMode::Ordered => ordered_pixel(&source, x, y, palette),
            _ => source,
        };
        proof {
            lemma_fundamental_div_mod_converse(i as int, width as int, y as int, x as int);
        }
        pixels.push(out);
        i += 1;
        x += 1;
        if x == width {
            x = 0;
            y += 1;
        }
        proof {
            assert((y - 1) * width + width == y * width) by (nonlinear_arith);
            if i < count {
                assert(y < height) by (nonlinear_arith)
                    requires
                        y * width + x < width * height,
                        0 <= x,
                        0 < width,
                ;
            }
        }
    }
    let out = Raster { width, height, pixels };
    proof {
        assert forall|c: int, r: int| 0 <= c < image.width && 0 <= r < image.height implies #[trigger] out.at(
            c,
            r,
        ) == dithered_pixel(mode, image.at(c, r), c, r, palette@) by {
            lemma_cell_in_range(c, r, width as int, height as int);
            lemma_fundamental_div_mod_converse(r * width + c, width as int, r, c);
        }
    }
    proof {
        if mode == DitherMode::Off {
            assert(out.pixels@ =~= image.pixels@);
        }
    }
    DitherStep::Done(out)
}

// ---------------------------------------------------------------------------
// What holds of dithering
// ---------------------------------------------------------------------------

/// Ordered dithering puts every pixel that is not transparent on a colour of
/// the palette, provided that the palette has one to offer.
pub proof fn law_ordered_on_palette(pixel: Rgba, x: int, y: int, palette: Seq<Rgba>)
    requires
        !is_transparent(pixel),
        has_opaque(palette),
    ensures
        exists|i: int|
            0 <= i < palette.len() && !is_transparent(#[trigger] palette[i]) && dithered_pixel(
                DitherMode::Ordered,
                pixel,
                x,
                y,
                palette,
            ) == palette[i],
{
    let probe = shifted(pixel, ordered_offset(x, y));
    lemma_closest_exists(palette, probe);
    let i = closest_index(palette, probe);
    assert(!is_transparent(palette[i]));
}

/// Without dithering, and with ordered dithering, a transparent pixel stays
/// as it is.
pub proof fn law_transparent_pixels_stay(mode: DitherMode, pixel: Rgba, x: int, y: int, palette: Seq<Rgba>)
    requires
        is_transparent(pixel),
    ensures
        dithered_pixel(mode, pixel, x, y, palette) == pixel,
{
}

// ---------------------------------------------------------------------------
// What holds of error diffusion
// ---------------------------------------------------------------------------

/// No error leaves the raster: every neighbour that receives a share lies
/// inside it.
pub proof fn law_targets_in_bounds(taps: Seq<Tap>, x: int, y: int, width: int, height: int, k: int)
    requires
        0 <= x,
        0 <= y,
        0 <= k < targets_of(taps, x, y, width, height).len(),
    ensures
        targets_of(taps, x, y, width, height)[k].x < width,
        targets_of(taps, x, y, width, height)[k].y < height,
    decreases taps.len(),
{
    if taps.len() > 0 {
        let rest = targets_of(taps.drop_last(), x, y, width, height);
        if k < rest.len() {
            law_targets_in_bounds(taps.drop_last(), x, y, width, height, k);
        }
    }
}

/// The shares handed out never exceed the kernel's total, and they reach it
/// when no neighbour is dropped.
pub proof fn law_shares_bounded(taps: Seq<Tap>, x: int, y: int, width: int, height: int)
    ensures
        0 <= weight_sum(targets_of(taps, x, y, width, height)) <= tap_weight_sum(taps),
        (forall|k: int| 0 <= k < taps.len() ==> tap_in_bounds(#[trigger] taps[k], x, y, width, height))
            ==> weight_sum(targets_of(taps, x, y, width, height)) == tap_weight_sum(taps),
    decreases taps.len(),
{
    if taps.len() > 0 {
        let front = taps.drop_last();
        law_shares_bounded(front, x, y, width, height);
        let rest = targets_of(front, x, y, width, height);
        let tap = taps.last();
        if tap_in_bounds(tap, x, y, width, height) {
            let target = Target { x: (x + tap.dx) as usize, y: (y + tap.dy) as usize, weight: tap.weight };
            assert(rest.push(target).drop_last() =~= rest);
        }
        if forall|k: int| 0 <= k < taps.len() ==> tap_in_bounds(#[trigger] taps[k], x, y, width, height) {
            assert(tap_in_bounds(taps[taps.len() - 1], x, y, width, height));
            assert forall|k: int| 0 <= k < front.len() implies tap_in_bounds(
                #[trigger] front[k],
                x,
                y,
                width,
                height,
            ) by {
                assert(front[k] == taps[k]);
            }
        }
    }
}

/// The shares of the Floyd-Steinberg kernel add up to the whole error, those
/// of the Atkinson kernel to three quarters of it.
pub proof fn law_kernel_totals()
    ensures
        tap_weight_sum(floyd_steinberg_taps()) == denominator_of(DitherMode::FloydSteinberg),
        4 * tap_weight_sum(atkinson_taps()) == 3 * denominator_of(DitherMode::Atkinson),
{
    reveal_with_fuel(tap_weight_sum, 8);
    let fs = floyd_steinberg_taps();
    assert(fs.drop_last() =~= seq![fs[0], fs[1], fs[2]]);
    assert(fs.drop_last().drop_last() =~= seq![fs[0], fs[1]]);
    assert(fs.drop_last().drop_last().drop_last() =~= seq![fs[0]]);
    assert(fs.drop_last().drop_last().drop_last().drop_last() =~= Seq::<Tap>::empty());
    let at = atkinson_taps();
    let a5 = at.drop_last();
    let a4 = a5.drop_last();
    let a3 = a4.drop_last();
    let a2 = a3.drop_last();
    let a1 = a2.drop_last();
    assert(a1.drop_last() =~= Seq::<Tap>::empty());
    assert(tap_weight_sum(a1) == 1);
    assert(tap_weight_sum(a2) == 2);
    assert(tap_weight_sum(a3) == 3);
    assert(tap_weight_sum(a4) == 4);
    assert(tap_weight_sum(a5) == 5);
}

/// Error is conserved away from the border: a pixel whose kernel neighbours
/// all lie inside the raster passes on its whole error under
/// Floyd-Steinberg, and three quarters of it under Atkinson.
pub proof fn law_error_conserved(mode: DitherMode, x: int, y: int, width: int, height: int)
    requires
        mode == DitherMode::FloydSteinberg || mode == DitherMode::Atkinson,
        forall|k: int|
            0 <= k < taps_of(mode).len() ==> tap_in_bounds(#[trigger] taps_of(mode)[k], x, y, width, height),
    ensures
        mode == DitherMode::FloydSteinberg ==> weight_sum(targets_of(taps_of(mode), x, y, width, height))
            == denominator_of(mode),
        mode == DitherMode::Atkinson ==> 4 * weight_sum(targets_of(taps_of(mode), x, y, width, height)) == 3
            * denominator_of(mode),
{
    law_kernel_totals();
    law_shares_bounded(taps_of(mode), x, y, width, height);
}

} // verus!
