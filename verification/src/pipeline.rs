//! From an image to the palette of its pattern.
//!
//! A pattern is made in stages: the pixels that will be stitched are
//! collected and reduced to a palette here; the image is dithered onto the
//! palette; the palette is mapped onto a catalog where one is given; and
//! every cell is assigned its colour.

use vstd::prelude::*;

use crate::assign::{
    assign_pixels, cell_color, cell_id, cell_pixel, is_assigned, law_every_cell_assigned, lemma_gap_zero,
};
use crate::dither::{
    closest_index, denominator_of, dither, dithered_pixel, has_opaque, is_dithered, lemma_closest_exists,
    rgb_gap, taps_of, DitherMode, DitherStep, ErrorKernel,
};
use crate::matcher::{
    choices, is_matching, is_rank_table, law_matching_adds_no_color, match_palette, rank_table, rows_of,
    table_fits,
};
use crate::pattern::{is_plain_color, ColorPlan, Pattern, ProcessError};
use crate::quantize::{
    final_buckets, has_color, is_color_of, is_monochrome, law_exact_palette, law_palette_bound, median_cut,
    median_cut_palette,
};
use crate::raster::{
    color_of, is_excluded, is_transparent, lemma_cell_in_range, opaque_pixel, pixel_is_excluded, same_rgb,
    Raster, Rgba,
};
use crate::threads::color_matching::{ranks_in_rgb, CatalogEntry, ColorMatchAlgorithm};

verus! {

/// The pixels that will be stitched, in raster order: those that are neither
/// transparent nor, where background is removed, background.
pub open spec fn included(pixels: Seq<Rgba>, remove_background: bool, threshold: u8) -> Seq<Rgba>
    decreases pixels.len(),
{
    if pixels.len() == 0 {
        Seq::empty()
    } else {
        let rest = included(pixels.drop_last(), remove_background, threshold);
        if is_excluded(pixels.last(), remove_background, threshold) {
            rest
        } else {
            rest.push(pixels.last())
        }
    }
}

/// Collects the pixels of an image that will be stitched.
pub fn collect_pixels(image: &Raster, remove_background: bool, threshold: u8) -> (kept: Vec<Rgba>)
    ensures
        kept@ == included(image.pixels@, remove_background, threshold),
{
    let mut kept: Vec<Rgba> = Vec::new();
    let mut i: usize = 0;
    while i < image.pixels.len()
        invariant
            i <= image.pixels.len(),
            kept@ == included(image.pixels@.take(i as int), remove_background, threshold),
        decreases image.pixels.len() - i,
    {
        let pixel = image.pixels[i];
        proof {
            assert(image.pixels@.take(i + 1).drop_last() =~= image.pixels@.take(i as int));
            assert(image.pixels@.take(i + 1).last() == pixel);
        }
        if !pixel_is_excluded(&pixel, remove_background, threshold) {
            kept.push(pixel);
        }
        i += 1;
    }
    proof {
        assert(image.pixels@.take(image.pixels.len() as int) =~= image.pixels@);
    }
    kept
}

/// The palette of an image: the median cut of the pixels that will be
/// stitched.
pub open spec fn image_palette(
    image: Raster,
    max_colors: nat,
    remove_background: bool,
    threshold: u8,
) -> Seq<Rgba> {
    median_cut_palette(included(image.pixels@, remove_background, threshold), max_colors)
}

/// Builds the palette of an image.  An image without width or height is
/// refused; an image that leaves no colour, because no pixel will be stitched
/// or no colour was asked for, is reported as having an empty palette.
pub fn quantize_image(
    image: &Raster,
    max_colors: usize,
    remove_background: bool,
    threshold: u8,
) -> (palette: Result<Vec<Rgba>, ProcessError>)
    ensures
        match palette {
            Ok(colors) => {
                &&& image.width > 0 && image.height > 0
                &&& colors@ == image_palette(*image, max_colors as nat, remove_background, threshold)
                &&& 0 < colors@.len() <= max_colors
            },
            Err(ProcessError::InvalidDimensions) => image.width == 0 || image.height == 0,
            Err(ProcessError::EmptyPalette) => {
                &&& image.width > 0 && image.height > 0
                &&& image_palette(*image, max_colors as nat, remove_background, threshold).len() == 0
            },
        },
{
    if image.width == 0 || image.height == 0 {
        return Err(ProcessError::InvalidDimensions);
    }
    let kept = collect_pixels(image, remove_background, threshold);
    let colors = median_cut(&kept, max_colors);
    if colors.len() == 0 {
        Err(ProcessError::EmptyPalette)
    } else {
        Ok(colors)
    }
}

// ---------------------------------------------------------------------------
// From palette to pattern
// ---------------------------------------------------------------------------

/// `plan` says what became of the palette: with a catalog and its ranking,
/// the matching by the keys of that ranking; without one, the palette as it
/// is.
pub open spec fn is_plan_of(
    plan: ColorPlan,
    palette: Seq<Rgba>,
    matching: Option<(&Vec<CatalogEntry>, &Vec<Vec<u64>>)>,
) -> bool {
    match matching {
        Some((cards, table)) => is_matching(plan, choices(palette, rows_of(table@)), cards@),
        None => plan.is_plain(palette),
    }
}

/// Whether there is a colour for every palette entry: there is no catalog to
/// match, or the catalog has a colour to offer.
pub open spec fn offers_colors(matching: Option<(&Vec<CatalogEntry>, &Vec<Vec<u64>>)>) -> bool {
    match matching {
        Some((cards, table)) => cards@.len() > 0,
        None => true,
    }
}

/// `pattern` is the pattern of `dithered` for the plan of the palette.
pub open spec fn is_pattern_of(
    pattern: Pattern,
    dithered: Raster,
    palette: Seq<Rgba>,
    matching: Option<(&Vec<CatalogEntry>, &Vec<Vec<u64>>)>,
    remove_background: bool,
    threshold: u8,
) -> bool {
    exists|plan: ColorPlan|
        {
            &&& is_plan_of(plan, palette, matching)
            &&& plan.wf(palette.len())
            &&& plan.named()
            &&& offers_colors(matching) ==> plan.covers(palette)
            &&& #[trigger] is_assigned(pattern, dithered, palette, plan, remove_background, threshold)
        }
}

/// Finishes a pattern from the dithered raster: maps the palette onto the
/// catalog where one is given with its ranking, `table[i][j]` ranking
/// catalog colour `j` against palette entry `i`, and assigns every cell its
/// colour.
pub fn finish(
    dithered: &Raster,
    palette: &Vec<Rgba>,
    matching: Option<(&Vec<CatalogEntry>, &Vec<Vec<u64>>)>,
    remove_background: bool,
    threshold: u8,
) -> (pattern: Pattern)
    requires
        dithered.wf(),
        matching matches Some((cards, table)) ==> table_fits(table@, palette@.len(), cards@.len()),
    ensures
        is_pattern_of(pattern, *dithered, palette@, matching, remove_background, threshold),
{
    let plan = match matching {
        Some((cards, table)) => match_palette(palette, cards, table),
        None => ColorPlan::plain(palette),
    };
    let ghost kept = plan;
    let pattern = assign_pixels(dithered, palette, plan, remove_background, threshold);
    proof {
        assert(is_assigned(pattern, *dithered, palette@, kept, remove_background, threshold));
    }
    pattern
}

/// What is left to the caller when a pattern cannot be finished in whole
/// numbers.
pub struct Pending {
    /// The palette of the image.
    pub palette: Vec<Rgba>,
    /// The dithered image, where the mode handles each pixel on its own.
    pub dithered: Option<Raster>,
    /// The kernel by which the caller diffuses error, where the mode carries
    /// error between pixels.
    pub kernel: Option<ErrorKernel>,
    /// The ranking of the catalog, where one is given and the metric
    /// measures in RGB space.
    pub table: Option<Vec<Vec<u64>>>,
}

/// How far a pattern has come.
pub enum Progress {
    /// The pattern is made.
    Finished(Pattern),
    /// The palette is made.  The caller diffuses error or ranks the catalog
    /// by a Lab metric, whichever is missing, and calls `finish`.
    Pending(Pending),
}

/// Whether a pattern can be finished in whole numbers: the mode handles each
/// pixel on its own, and the metric, where a catalog is given, measures in
/// RGB space.
pub open spec fn finishes_here(
    mode: DitherMode,
    catalog: Option<&Vec<CatalogEntry>>,
    algorithm: ColorMatchAlgorithm,
) -> bool {
    (mode == DitherMode::Off || mode == DitherMode::Ordered) && (catalog is None || ranks_in_rgb(algorithm))
}

/// `pattern` is the finished pattern of `image`: for the palette of the
/// image, its dithering by `mode` and, where a catalog is given, the ranking
/// by `algorithm`.
pub open spec fn is_finished(
    pattern: Pattern,
    image: Raster,
    max_colors: nat,
    mode: DitherMode,
    remove_background: bool,
    threshold: u8,
    catalog: Option<&Vec<CatalogEntry>>,
    algorithm: ColorMatchAlgorithm,
) -> bool {
    let palette = image_palette(image, max_colors, remove_background, threshold);
    exists|dithered: Raster, table: Vec<Vec<u64>>|
        {
            &&& is_dithered(dithered, image, palette, mode)
            &&& catalog matches Some(cards) ==> is_rank_table(table@, palette, cards@, algorithm)
            &&& #[trigger] is_pattern_of(
                pattern,
                dithered,
                palette,
                with_ranking(catalog, &table),
                remove_background,
                threshold,
            )
        }
}

/// A catalog, where there is one, together with its ranking.
pub open spec fn with_ranking<'a>(
    catalog: Option<&'a Vec<CatalogEntry>>,
    table: &'a Vec<Vec<u64>>,
) -> Option<(&'a Vec<CatalogEntry>, &'a Vec<Vec<u64>>)> {
    match catalog {
        Some(cards) => Some((cards, table)),
        None => None,
    }
}

/// `pending` holds what the library could do of the pattern of `image`.
pub open spec fn is_pending(
    pending: Pending,
    image: Raster,
    max_colors: nat,
    mode: DitherMode,
    remove_background: bool,
    threshold: u8,
    catalog: Option<&Vec<CatalogEntry>>,
    algorithm: ColorMatchAlgorithm,
) -> bool {
    let palette = image_palette(image, max_colors, remove_background, threshold);
    &&& pending.palette@ == palette
    &&& match mode {
        DitherMode::Off | DitherMode::Ordered => {
            &&& pending.kernel is None
            &&& pending.dithered matches Some(dithered)
            &&& is_dithered(dithered, image, palette, mode)
        },
        _ => {
            &&& pending.dithered is None
            &&& pending.kernel matches Some(kernel)
            &&& kernel.taps@ == taps_of(mode)
            &&& kernel.denominator == denominator_of(mode)
        },
    }
    &&& match catalog {
        Some(cards) => if ranks_in_rgb(algorithm) {
            pending.table matches Some(table) && is_rank_table(table@, palette, cards@, algorithm)
        } else {
            pending.table is None
        },
        None => pending.table is None,
    }
}

/// Makes the pattern of an image: its palette, the dithering of the image
/// onto the palette, the matching of the palette onto a catalog where one is
/// given, and the colour of every cell.
///
/// An image without width or height is refused, and so is one that leaves
/// no colour.  A pattern whose dithering carries error between pixels, or
/// whose metric measures in Lab space, is handed back unfinished, with all
/// that could be done of it.
pub fn process(
    image: &Raster,
    max_colors: usize,
    mode: DitherMode,
    remove_background: bool,
    threshold: u8,
    catalog: Option<&Vec<CatalogEntry>>,
    algorithm: ColorMatchAlgorithm,
) -> (progress: Result<Progress, ProcessError>)
    requires
        image.wf(),
    ensures
        match progress {
            Ok(Progress::Finished(pattern)) => {
                &&& image.width > 0 && image.height > 0
                &&& image_palette(*image, max_colors as nat, remove_background, threshold).len() > 0
                &&& finishes_here(mode, catalog, algorithm)
                &&& is_finished(
                    pattern,
                    *image,
                    max_colors as nat,
                    mode,
                    remove_background,
                    threshold,
                    catalog,
                    algorithm,
                )
            },
            Ok(Progress::Pending(pending)) => {
                &&& image.width > 0 && image.height > 0
                &&& image_palette(*image, max_colors as nat, remove_background, threshold).len() > 0
                &&& !finishes_here(mode, catalog, algorithm)
                &&& is_pending(
                    pending,
                    *image,
                    max_colors as nat,
                    mode,
                    remove_background,
                    threshold,
                    catalog,
                    algorithm,
                )
            },
            Err(ProcessError::InvalidDimensions) => image.width == 0 || image.height == 0,
            Err(ProcessError::EmptyPalette) => {
                &&& image.width > 0 && image.height > 0
                &&& image_palette(*image, max_colors as nat, remove_background, threshold).len() == 0
            },
        },
{
    let palette = match quantize_image(image, max_colors, remove_background, threshold) {
        Ok(palette) => palette,
        Err(e) => {
            return Err(e);
        },
    };
    let (dithered, kernel) = match dither(image, &palette, mode) {
        DitherStep::Done(raster) => (Some(raster), None),
        DitherStep::Diffuse(kernel) => (None, Some(kernel)),
    };
    let table = match catalog {
        Some(cards) => rank_table(&palette, cards, algorithm),
        None => None,
    };
    let raster = match dithered {
        Some(raster) => raster,
        None => {
            return Ok(Progress::Pending(Pending { palette, dithered: None, kernel, table }));
        },
    };
    let empty: Vec<Vec<u64>> = Vec::new();
    match catalog {
        None => {
            let pattern = finish(&raster, &palette, None, remove_background, threshold);
            proof {
                assert(is_pattern_of(
                    pattern,
                    raster,
                    palette@,
                    with_ranking(catalog, &empty),
                    remove_background,
                    threshold,
                ));
            }
            Ok(Progress::Finished(pattern))
        },
        Some(cards) => {
            match table {
                Some(keys) => {
                    let pattern = finish(&raster, &palette, Some((cards, &keys)), remove_background, threshold);
                    proof {
                        assert(is_pattern_of(
                            pattern,
                            raster,
                            palette@,
                            with_ranking(catalog, &keys),
                            remove_background,
                            threshold,
                        ));
                    }
                    Ok(Progress::Finished(pattern))
                },
                None => Ok(Progress::Pending(Pending { palette, dithered: Some(raster), kernel, table: None })),
            }
        },
    }
}

// ---------------------------------------------------------------------------
// What holds of a finished pattern
// ---------------------------------------------------------------------------

/// What is collected is what is stitched: a pixel is collected exactly when
/// it is in the image and not left out.
pub proof fn lemma_included_members(pixels: Seq<Rgba>, remove_background: bool, threshold: u8, p: Rgba)
    ensures
        included(pixels, remove_background, threshold).contains(p) <==> pixels.contains(p) && !is_excluded(
            p,
            remove_background,
            threshold,
        ),
    decreases pixels.len(),
{
    if pixels.len() > 0 {
        let front = pixels.drop_last();
        let rest = included(front, remove_background, threshold);
        let all = included(pixels, remove_background, threshold);
        lemma_included_members(front, remove_background, threshold, p);
        if pixels.contains(p) {
            let i = choose|i: int| 0 <= i < pixels.len() && pixels[i] == p;
            if i < front.len() {
                assert(front[i] == p);
            }
        }
        if front.contains(p) {
            let i = choose|i: int| 0 <= i < front.len() && front[i] == p;
            assert(pixels[i] == p);
        }
        if rest.contains(p) {
            let i = choose|i: int| 0 <= i < rest.len() && rest[i] == p;
            assert(all[i] == p);
        }
        if all.contains(p) {
            let i = choose|i: int| 0 <= i < all.len() && all[i] == p;
            if i < rest.len() {
                assert(rest[i] == p);
            } else {
                assert(pixels[pixels.len() - 1] == p);
            }
        }
        if p == pixels.last() {
            assert(pixels[pixels.len() - 1] == p);
            if !is_excluded(p, remove_background, threshold) {
                assert(all[rest.len() as int] == p);
            }
        }
    }
}

/// What the pattern is made of at the cell in column `x` of row `y`: the
/// pixel of the image there, dithered onto the palette of the image.
pub open spec fn stitched_pixel(
    image: Raster,
    max_colors: nat,
    mode: DitherMode,
    remove_background: bool,
    threshold: u8,
    x: int,
    y: int,
) -> Rgba {
    dithered_pixel(
        mode,
        image.at(x, y),
        x,
        y,
        image_palette(image, max_colors, remove_background, threshold),
    )
}

/// The pattern names the colour `id`.
pub open spec fn lists_color(pattern: Pattern, id: Seq<char>) -> bool {
    exists|k: int| 0 <= k < pattern.colors@.len() && (#[trigger] pattern.colors@[k]).id@ == id
}

/// Every colour of a median-cut palette is opaque.
pub proof fn lemma_palette_opaque(pixels: Seq<Rgba>, max_colors: nat, k: int)
    requires
        0 <= k < median_cut_palette(pixels, max_colors).len(),
    ensures
        !is_transparent(median_cut_palette(pixels, max_colors)[k]),
{
}

/// Every cell of a finished pattern is accounted for.  A cell whose pixel is
/// transparent, or background that is to be removed, holds the empty
/// identifier.  Every other cell holds the identifier of a colour that the
/// pattern lists, and never the empty one.  This holds of every pattern that
/// is finished without a catalog or with a catalog that is not empty.
pub proof fn law_finished_cells_assigned(
    pattern: Pattern,
    image: Raster,
    max_colors: nat,
    mode: DitherMode,
    remove_background: bool,
    threshold: u8,
    catalog: Option<&Vec<CatalogEntry>>,
    algorithm: ColorMatchAlgorithm,
    x: int,
    y: int,
)
    requires
        image.wf(),
        is_finished(pattern, image, max_colors, mode, remove_background, threshold, catalog, algorithm),
        image_palette(image, max_colors, remove_background, threshold).len() > 0,
        catalog matches Some(cards) ==> cards@.len() > 0,
        0 <= x < image.width,
        0 <= y < image.height,
    ensures
        is_excluded(
            stitched_pixel(image, max_colors, mode, remove_background, threshold, x, y),
            remove_background,
            threshold,
        ) ==> pattern.pixel_ids@[y]@[x]@ == Seq::<char>::empty(),
        !is_excluded(
            stitched_pixel(image, max_colors, mode, remove_background, threshold, x, y),
            remove_background,
            threshold,
        ) ==> pattern.pixel_ids@[y]@[x]@.len() > 0 && lists_color(pattern, pattern.pixel_ids@[y]@[x]@),
{
    let palette = image_palette(image, max_colors, remove_background, threshold);
    let (dithered, table) = choose|dithered: Raster, table: Vec<Vec<u64>>|
        {
            &&& is_dithered(dithered, image, palette, mode)
            &&& catalog matches Some(cards) ==> is_rank_table(table@, palette, cards@, algorithm)
            &&& #[trigger] is_pattern_of(
                pattern,
                dithered,
                palette,
                with_ranking(catalog, &table),
                remove_background,
                threshold,
            )
        };
    let matching = with_ranking(catalog, &table);
    let plan = choose|plan: ColorPlan|
        {
            &&& is_plan_of(plan, palette, matching)
            &&& plan.wf(palette.len())
            &&& plan.named()
            &&& offers_colors(matching) ==> plan.covers(palette)
            &&& #[trigger] is_assigned(pattern, dithered, palette, plan, remove_background, threshold)
        };
    assert(dithered.at(x, y) == stitched_pixel(image, max_colors, mode, remove_background, threshold, x, y));
    assert(offers_colors(matching));
    lemma_palette_opaque(included(image.pixels@, remove_background, threshold), max_colors, 0);
    assert(has_opaque(palette)) by {
        assert(!is_transparent(palette[0]));
    }
    law_every_cell_assigned(pattern, dithered, palette, plan, remove_background, threshold, x, y);
}

/// A finished pattern lists no more colours than were asked for, and with a
/// catalog no more than the catalog holds: matching merges colours and
/// never adds one.
pub proof fn law_finished_colors_bounded(
    pattern: Pattern,
    image: Raster,
    max_colors: nat,
    mode: DitherMode,
    remove_background: bool,
    threshold: u8,
    catalog: Option<&Vec<CatalogEntry>>,
    algorithm: ColorMatchAlgorithm,
)
    requires
        is_finished(pattern, image, max_colors, mode, remove_background, threshold, catalog, algorithm),
    ensures
        pattern.colors@.len() <= max_colors,
        catalog matches Some(cards) ==> pattern.colors@.len() <= cards@.len(),
{
    let palette = image_palette(image, max_colors, remove_background, threshold);
    let (dithered, table) = choose|dithered: Raster, table: Vec<Vec<u64>>|
        {
            &&& is_dithered(dithered, image, palette, mode)
            &&& catalog matches Some(cards) ==> is_rank_table(table@, palette, cards@, algorithm)
            &&& #[trigger] is_pattern_of(
                pattern,
                dithered,
                palette,
                with_ranking(catalog, &table),
                remove_background,
                threshold,
            )
        };
    let matching = with_ranking(catalog, &table);
    let plan = choose|plan: ColorPlan|
        {
            &&& is_plan_of(plan, palette, matching)
            &&& plan.wf(palette.len())
            &&& plan.named()
            &&& offers_colors(matching) ==> plan.covers(palette)
            &&& #[trigger] is_assigned(pattern, dithered, palette, plan, remove_background, threshold)
        };
    law_palette_bound(included(image.pixels@, remove_background, threshold), max_colors);
    match catalog {
        Some(cards) => {
            let chosen = choices(palette, rows_of(table@));
            law_matching_adds_no_color(plan, chosen, cards@);
        },
        None => {},
    }
}

/// An image comes back as it went in.  Where the cut leaves every bucket in
/// one colour (as it does when no more pixels are stitched than colours are
/// asked for), and the image is neither dithered nor matched, every stitched
/// cell of the pattern shows the colour of its pixel.
pub proof fn law_round_trip(
    pattern: Pattern,
    image: Raster,
    max_colors: nat,
    remove_background: bool,
    threshold: u8,
    algorithm: ColorMatchAlgorithm,
    x: int,
    y: int,
)
    requires
        image.wf(),
        max_colors > 0,
        is_finished(pattern, image, max_colors, DitherMode::Off, remove_background, threshold, None, algorithm),
        forall|j: int|
            0 <= j < final_buckets(included(image.pixels@, remove_background, threshold), max_colors).len()
                ==> is_monochrome(
                #[trigger] final_buckets(included(image.pixels@, remove_background, threshold), max_colors)[j],
            ),
        0 <= x < image.width,
        0 <= y < image.height,
        !is_excluded(image.at(x, y), remove_background, threshold),
    ensures
        pattern.preview.at(x, y) == opaque_pixel(color_of(image.at(x, y))),
        pattern.pixel_ids@[y]@[x]@.len() > 0,
{
    let kept = included(image.pixels@, remove_background, threshold);
    let palette = image_palette(image, max_colors, remove_background, threshold);
    let pixel = image.at(x, y);
    let (dithered, table) = choose|dithered: Raster, table: Vec<Vec<u64>>|
        {
            &&& is_dithered(dithered, image, palette, DitherMode::Off)
            &&& #[trigger] is_pattern_of(
                pattern,
                dithered,
                palette,
                with_ranking(None, &table),
                remove_background,
                threshold,
            )
        };
    let plan = choose|plan: ColorPlan|
        {
            &&& is_plan_of(plan, palette, None)
            &&& plan.wf(palette.len())
            &&& plan.named()
            &&& offers_colors(None) ==> plan.covers(palette)
            &&& #[trigger] is_assigned(pattern, dithered, palette, plan, remove_background, threshold)
        };
    assert(dithered.at(x, y) == pixel);
    // the pixel was collected, so the palette holds its colour
    lemma_cell_in_range(x, y, image.width as int, image.height as int);
    assert(image.pixels@[y * image.width + x] == pixel);
    assert(image.pixels@.contains(pixel));
    lemma_included_members(image.pixels@, remove_background, threshold, pixel);
    let at = choose|at: int| 0 <= at < kept.len() && kept[at] == pixel;
    law_exact_palette(kept, max_colors);
    assert(has_color(palette, kept[at]));
    let k = choose|k: int| 0 <= k < palette.len() && same_rgb(#[trigger] palette[k], pixel);
    assert(is_color_of(palette[k], kept));
    assert(!is_transparent(palette[k]));
    // so the nearest entry is of that very colour
    lemma_closest_exists(palette, pixel);
    let i = closest_index(palette, pixel);
    lemma_gap_zero(pixel, palette[k]);
    lemma_gap_zero(pixel, palette[i]);
    assert(rgb_gap(pixel, palette[i]) <= rgb_gap(pixel, palette[k]));
    assert(same_rgb(palette[i], pixel));
    assert(color_of(palette[i]) =~= color_of(pixel));
    // and the plain plan gives that entry its own colour
    assert(plan.assignment.len() == palette.len());
    assert(plan.assignment@[i] == Some(i as usize));
    assert(is_plain_color(plan.colors@[i], palette[i], (i + 1) as nat));
    let cell = cell_color(pixel, palette, plan.assignment@, remove_background, threshold);
    assert(cell == Some(i as usize));
    assert(pattern.preview.at(x, y) == cell_pixel(plan.colors@, cell));
    assert(pattern.pixel_ids@[y]@[x]@ == cell_id(plan.colors@, cell));
}

} // verus!
