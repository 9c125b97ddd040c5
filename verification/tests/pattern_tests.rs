use needlepoint::assign::{assign_pixels, ColorIndex};
use needlepoint::dither::{
    dither, find_closest_index, ordered_pixel, DitherMode, DitherStep, ErrorKernel, Target,
};
use needlepoint::matcher::{has_shape, match_palette, rank_table};
use needlepoint::pattern::{ColorPlan, Pattern, ProcessError};
use needlepoint::pipeline::{collect_pixels, finish, process, quantize_image, Progress};
use needlepoint::quantize::{copy_pixels, median_cut, sort_bucket};
use needlepoint::raster::{
    opaque, pixel_is_background, pixel_is_excluded, pixel_is_transparent, rgb_of, Raster,
};
use needlepoint::threads::color_matching::{CatalogEntry, ColorMatchAlgorithm};

type Px = [u8; 4];

const RED: Px = [255, 0, 0, 255];
const GREEN: Px = [0, 255, 0, 255];
const BLUE: Px = [0, 0, 255, 255];
const BLACK: Px = [0, 0, 0, 255];
const WHITE: Px = [255, 255, 255, 255];
const CLEAR: Px = [0, 0, 0, 0];

fn raster(width: usize, height: usize, pixels: Vec<Px>) -> Raster {
    Raster::new(width, height, pixels).expect("pixel count matches the dimensions")
}

fn done(step: DitherStep) -> Raster {
    match step {
        DitherStep::Done(raster) => raster,
        DitherStep::Diffuse(_) => panic!("expected a dithered raster"),
    }
}

fn sorted(mut colors: Vec<Px>) -> Vec<Px> {
    colors.sort();
    colors
}

/// Runs the stages for a mode that handles each pixel on its own.
fn make_pattern(
    image: &Raster,
    max_colors: usize,
    mode: DitherMode,
    remove_background: bool,
    threshold: u8,
) -> (Vec<Px>, Pattern) {
    let palette = match quantize_image(image, max_colors, remove_background, threshold) {
        Ok(palette) => palette,
        Err(ProcessError::EmptyPalette) => Vec::new(),
        Err(ProcessError::InvalidDimensions) => panic!("image has no area"),
    };
    let dithered = done(dither(image, &palette, mode));
    let plan = ColorPlan::plain(&palette);
    let pattern = assign_pixels(&dithered, &palette, plan, remove_background, threshold);
    (palette, pattern)
}

fn id_of(pattern: &Pattern, palette: &[Px], pixel: Px) -> String {
    let at = palette.iter().position(|p| p[..3] == pixel[..3]).expect("colour is in the palette");
    pattern.colors[at].id.clone()
}

fn entry(id: &str, rgb: [u8; 3], name: &str) -> CatalogEntry {
    CatalogEntry { id: id.to_string(), rgb, name: name.to_string() }
}

// --- pixels ---------------------------------------------------------------

#[test]
fn alpha_below_128_is_transparent() {
    assert!(pixel_is_transparent(&[1, 2, 3, 0]));
    assert!(pixel_is_transparent(&[1, 2, 3, 127]));
    assert!(!pixel_is_transparent(&[1, 2, 3, 128]));
    assert!(!pixel_is_transparent(&[1, 2, 3, 255]));
}

#[test]
fn background_is_near_white_in_every_channel() {
    assert!(pixel_is_background(&[246, 246, 246, 255], 10));
    assert!(!pixel_is_background(&[245, 246, 246, 255], 10));
    assert!(!pixel_is_background(&[246, 246, 245, 255], 10));
    assert!(!pixel_is_background(&[255, 255, 255, 255], 0));
    assert!(pixel_is_background(&[1, 1, 1, 255], 255));
    assert!(!pixel_is_background(&[0, 1, 1, 255], 255));
    assert!(pixel_is_excluded(&[255, 255, 255, 255], true, 10));
    assert!(!pixel_is_excluded(&[255, 255, 255, 255], false, 10));
    assert!(pixel_is_excluded(&[0, 0, 0, 100], false, 10));
    assert_eq!(rgb_of(&[1, 2, 3, 4]), [1, 2, 3]);
    assert_eq!(opaque(&[1, 2, 3]), [1, 2, 3, 255]);
}

#[test]
fn rasters_need_a_matching_pixel_count() {
    assert!(Raster::new(2, 2, vec![RED; 4]).is_some());
    assert!(Raster::new(2, 2, vec![RED; 3]).is_none());
    assert!(Raster::new(0, 5, Vec::new()).is_some());
    assert!(Raster::new(usize::MAX, 2, vec![RED; 2]).is_none());
    let r = raster(2, 2, vec![RED, GREEN, BLUE, BLACK]);
    assert_eq!(r.pixel(0, 0), RED);
    assert_eq!(r.pixel(1, 0), GREEN);
    assert_eq!(r.pixel(0, 1), BLUE);
    assert_eq!(r.pixel(1, 1), BLACK);
}

// --- median cut -----------------------------------------------------------

#[test]
fn median_cut_of_nothing_is_empty() {
    assert!(median_cut(&Vec::new(), 8).is_empty());
    assert!(median_cut(&vec![RED, GREEN], 0).is_empty());
}

#[test]
fn median_cut_with_one_colour_takes_the_mean() {
    let pixels = vec![[0, 10, 20, 255], [10, 20, 40, 200], [21, 31, 61, 255]];
    assert_eq!(median_cut(&pixels, 1), vec![[10, 20, 40, 255]]);
}

#[test]
fn median_cut_splits_the_widest_channel_at_the_midpoint() {
    let pixels = vec![[250, 0, 0, 255], [0, 0, 0, 255], [200, 0, 0, 255], [10, 0, 0, 255]];
    assert_eq!(median_cut(&pixels, 2), vec![[5, 0, 0, 255], [225, 0, 0, 255]]);
    // the second bucket is the wider one and is cut next, in its place
    assert_eq!(median_cut(&pixels, 3), vec![[5, 0, 0, 255], [200, 0, 0, 255], [250, 0, 0, 255]]);
    assert_eq!(
        median_cut(&pixels, 4),
        vec![[0, 0, 0, 255], [10, 0, 0, 255], [200, 0, 0, 255], [250, 0, 0, 255]]
    );
    assert_eq!(median_cut(&pixels, 9).len(), 4);
}

#[test]
fn median_cut_breaks_ties_by_first_bucket_and_first_channel() {
    // red and blue spread equally: red is cut
    let pixels = vec![[0, 0, 100, 255], [100, 0, 0, 255]];
    assert_eq!(median_cut(&pixels, 2), vec![[0, 0, 100, 255], [100, 0, 0, 255]]);
    // green and blue spread equally: green is cut
    let pixels = vec![[0, 50, 0, 255], [0, 0, 50, 255]];
    assert_eq!(median_cut(&pixels, 2), vec![[0, 0, 50, 255], [0, 50, 0, 255]]);
    // two buckets of equal spread: the first is cut
    let pixels = vec![[0, 0, 0, 255], [10, 0, 0, 255], [100, 0, 0, 255], [110, 0, 0, 255]];
    assert_eq!(median_cut(&pixels, 3), vec![[0, 0, 0, 255], [10, 0, 0, 255], [105, 0, 0, 255]]);
}

#[test]
fn median_cut_stops_when_nothing_is_left_to_part() {
    let pixels = vec![[7, 7, 7, 255]; 5];
    assert_eq!(median_cut(&pixels, 4), vec![[7, 7, 7, 255]]);
    let pixels = vec![RED, RED, GREEN, GREEN];
    assert_eq!(sorted(median_cut(&pixels, 16)), sorted(vec![RED, GREEN]));
}

#[test]
fn median_cut_rounds_means_down_and_ignores_alpha() {
    let pixels = vec![[1, 0, 0, 130], [2, 0, 0, 255]];
    assert_eq!(median_cut(&pixels, 1), vec![[1, 0, 0, 255]]);
    let pixels = vec![[255, 255, 255, 128], [255, 255, 254, 128]];
    assert_eq!(median_cut(&pixels, 1), vec![[255, 255, 254, 255]]);
}

#[test]
fn median_cut_may_blend_when_colours_repeat_unevenly() {
    // two colours, two allowed, yet the midpoint falls inside the run of reds
    let a = [10, 0, 0, 255];
    let b = [30, 0, 0, 255];
    assert_eq!(median_cut(&vec![a, a, a, b], 2), vec![a, [20, 0, 0, 255]]);
}

#[test]
fn palette_never_exceeds_the_colours_asked_for() {
    let mut pixels = Vec::new();
    for i in 0..60u8 {
        pixels.push([i.wrapping_mul(37), i.wrapping_mul(11), i.wrapping_mul(101), 255]);
    }
    for max_colors in 0..12 {
        let palette = median_cut(&pixels, max_colors);
        assert!(palette.len() <= max_colors);
        assert!(palette.iter().all(|c| c[3] == 255));
    }
    assert_eq!(median_cut(&pixels, 8).len(), 8);
}

#[test]
fn few_distinct_pixels_come_back_as_the_palette() {
    let pixels = vec![[9, 8, 7, 255], [200, 100, 0, 255], [0, 0, 1, 255]];
    for max_colors in 3..6 {
        assert_eq!(sorted(median_cut(&pixels, max_colors)), sorted(pixels.clone()));
    }
}

#[test]
fn sorting_a_bucket_is_stable() {
    let bucket = vec![[5, 1, 0, 255], [3, 2, 0, 255], [5, 3, 0, 255], [3, 4, 0, 255], [0, 5, 0, 255]];
    assert_eq!(
        sort_bucket(&bucket, 0),
        vec![[0, 5, 0, 255], [3, 2, 0, 255], [3, 4, 0, 255], [5, 1, 0, 255], [5, 3, 0, 255]]
    );
    assert_eq!(sort_bucket(&bucket, 1), bucket);
    assert_eq!(sort_bucket(&bucket, 2), bucket);
    assert_eq!(sort_bucket(&Vec::new(), 0), Vec::<Px>::new());
    assert_eq!(copy_pixels(&bucket), bucket);
}

// --- nearest palette colour ----------------------------------------------

#[test]
fn closest_index_skips_transparent_entries() {
    let palette = vec![[10, 10, 10, 0], [200, 200, 200, 255], [12, 12, 12, 255]];
    assert_eq!(find_closest_index(&[10, 10, 10, 255], &palette), Some(2));
    assert_eq!(find_closest_index(&[255, 255, 255, 255], &palette), Some(1));
    assert_eq!(find_closest_index(&RED, &vec![CLEAR, [9, 9, 9, 127]]), None);
    assert_eq!(find_closest_index(&RED, &Vec::new()), None);
}

#[test]
fn closest_index_takes_the_lowest_on_a_tie() {
    let palette = vec![[0, 0, 0, 255], [20, 0, 0, 255], [0, 20, 0, 255]];
    assert_eq!(find_closest_index(&[10, 0, 0, 255], &palette), Some(0));
    assert_eq!(find_closest_index(&[10, 10, 0, 255], &palette), Some(0));
    assert_eq!(find_closest_index(&[11, 0, 0, 255], &palette), Some(1));
    let twins = vec![RED, RED];
    assert_eq!(find_closest_index(&RED, &twins), Some(0));
}

#[test]
fn table_and_scan_agree() {
    let palette = vec![[0, 0, 0, 0], RED, GREEN, RED, [0, 0, 0, 255], [0, 0, 1, 255]];
    let index = ColorIndex::build(&palette);
    let probes = [RED, GREEN, BLUE, BLACK, WHITE, [0, 0, 1, 255], [254, 0, 0, 255], [0, 0, 0, 0]];
    for probe in probes {
        assert_eq!(index.lookup(&probe, &palette), find_closest_index(&probe, &palette));
    }
    assert_eq!(index.lookup(&RED, &palette), Some(1));
    assert_eq!(index.lookup(&BLACK, &palette), Some(4));
    let empty = ColorIndex::build(&Vec::new());
    assert_eq!(empty.lookup(&RED, &Vec::new()), None);
}

#[test]
fn the_table_holds_every_palette_colour() {
    let palette = vec![[0, 0, 0, 0], RED, GREEN, RED, [0, 0, 0, 255], [0, 0, 1, 255], [7, 7, 7, 100]];
    let index = ColorIndex::build(&palette);
    for entry in &palette {
        assert_eq!(index.contains(entry), !pixel_is_transparent(entry) || *entry == [0, 0, 0, 0]);
    }
    // alpha plays no part: the table goes by colour
    assert!(index.contains(&[255, 0, 0, 3]));
    assert!(index.contains(&[0, 0, 0, 0]));
    assert!(!index.contains(&[7, 7, 7, 255]));
    assert!(!index.contains(&BLUE));
    assert!(!index.contains(&WHITE));
    assert!(!ColorIndex::build(&Vec::new()).contains(&RED));
    assert!(!ColorIndex::build(&vec![[9, 9, 9, 0]]).contains(&[9, 9, 9, 255]));
}

#[test]
fn dithered_pixels_are_found_in_the_table() {
    let mut pixels = Vec::new();
    for i in 0..40u8 {
        pixels.push([i.wrapping_mul(61), i.wrapping_mul(17), i.wrapping_mul(129), 255]);
    }
    let image = raster(8, 5, pixels);
    let palette = quantize_image(&image, 6, false, 0).unwrap();
    let index = ColorIndex::build(&palette);
    assert!(palette.iter().all(|entry| index.contains(entry)));
    let dithered = done(dither(&image, &palette, DitherMode::Ordered));
    assert!(dithered.pixels.iter().all(|pixel| index.contains(pixel)));
}

// --- dithering ------------------------------------------------------------

#[test]
fn dither_mode_names_round_trip() {
    for mode in [DitherMode::Off, DitherMode::FloydSteinberg, DitherMode::Ordered, DitherMode::Atkinson] {
        assert_eq!(DitherMode::from_name(mode.as_str()), mode);
    }
    assert_eq!(DitherMode::Off.as_str(), "none");
    assert_eq!(DitherMode::FloydSteinberg.as_str(), "floyd_steinberg");
    assert_eq!(DitherMode::Ordered.as_str(), "ordered");
    assert_eq!(DitherMode::Atkinson.as_str(), "atkinson");
}

#[test]
fn unknown_dither_mode_means_no_dithering() {
    assert_eq!(DitherMode::from_name("riemersma"), DitherMode::Off);
    assert_eq!(DitherMode::from_name(""), DitherMode::Off);
    assert_eq!(DitherMode::from_name("Ordered"), DitherMode::Off);
}

#[test]
fn dithering_off_copies_the_image() {
    let pixels = vec![[1, 2, 3, 255], [4, 5, 6, 100], [7, 8, 9, 255], CLEAR, WHITE, [13, 14, 15, 128]];
    let image = raster(3, 2, pixels.clone());
    let out = done(dither(&image, &vec![BLACK, WHITE], DitherMode::Off));
    assert_eq!(out.width, 3);
    assert_eq!(out.height, 2);
    assert_eq!(out.pixels, pixels);
    let out = done(dither(&image, &Vec::new(), DitherMode::Off));
    assert_eq!(out.pixels, pixels);
}

#[test]
fn ordered_dithering_follows_the_bayer_matrix() {
    let palette = vec![BLACK, WHITE];
    let gray = [128, 128, 128, 255];
    // thresholds 4 * m - 32 for the matrix rows
    let expected_white = [
        [false, true, false, true],
        [true, false, true, false],
        [false, true, false, true],
        [true, true, true, false],
    ];
    // row 0: m = 0, 8, 2, 10 -> 96, 128, 104, 136
    // row 1: m = 12, 4, 14, 6 -> 144, 112, 152, 120
    // row 2: m = 3, 11, 1, 9 -> 108, 140, 100, 132
    // row 3: m = 15, 7, 13, 5 -> 156, 124, 148, 116
    let expected_row3 = [true, false, true, false];
    for y in 0..3 {
        for x in 0..4 {
            let out = ordered_pixel(&gray, x, y, &palette);
            assert_eq!(out == WHITE, expected_white[y][x]);
            assert!(out == WHITE || out == BLACK);
            assert_eq!(ordered_pixel(&gray, x + 4, y + 8, &palette), out);
        }
    }
    for x in 0..4 {
        assert_eq!(ordered_pixel(&gray, x, 3, &palette) == WHITE, expected_row3[x]);
    }
}

#[test]
fn ordered_dithering_clamps_the_shifted_samples() {
    let palette = vec![[0, 0, 0, 255], [20, 20, 20, 255], [240, 240, 240, 255], [255, 255, 255, 255]];
    // at (0, 0) the shift is -32: 10 clamps to 0
    assert_eq!(ordered_pixel(&[10, 10, 10, 255], 0, 0, &palette), [0, 0, 0, 255]);
    // at (0, 3) the shift is +28: 250 clamps to 255
    assert_eq!(ordered_pixel(&[250, 250, 250, 255], 0, 3, &palette), [255, 255, 255, 255]);
    // at (1, 0) the shift is 0
    assert_eq!(ordered_pixel(&[22, 22, 22, 255], 1, 0, &palette), [20, 20, 20, 255]);
}

#[test]
fn ordered_dithering_leaves_transparent_pixels() {
    let palette = vec![BLACK, WHITE];
    let ghost = [77, 66, 55, 12];
    assert_eq!(ordered_pixel(&ghost, 2, 1, &palette), ghost);
    assert_eq!(ordered_pixel(&RED, 2, 1, &Vec::new()), RED);
    assert_eq!(ordered_pixel(&RED, 2, 1, &vec![CLEAR]), RED);
    let image = raster(2, 1, vec![ghost, [128, 128, 128, 255]]);
    let out = done(dither(&image, &palette, DitherMode::Ordered));
    assert_eq!(out.pixels, vec![ghost, WHITE]);
}

#[test]
fn ordered_dithering_of_a_raster_goes_cell_by_cell() {
    let palette = vec![BLACK, WHITE];
    let gray = [128, 128, 128, 255];
    let image = raster(5, 5, vec![gray; 25]);
    let out = done(dither(&image, &palette, DitherMode::Ordered));
    for y in 0..5 {
        for x in 0..5 {
            assert_eq!(out.pixel(x, y), ordered_pixel(&gray, x, y, &palette));
        }
    }
    assert_eq!(out.pixel(0, 0), BLACK);
    assert_eq!(out.pixel(1, 0), WHITE);
    assert_eq!(out.pixel(4, 4), BLACK);
    assert_eq!(out.pixel(0, 3), WHITE);
}

#[test]
fn diffusion_modes_hand_back_their_kernel() {
    let image = raster(1, 1, vec![RED]);
    match dither(&image, &vec![RED], DitherMode::FloydSteinberg) {
        DitherStep::Diffuse(kernel) => {
            assert_eq!(kernel.denominator, 16);
            let taps: Vec<(i8, u8, u8)> = kernel.taps.iter().map(|t| (t.dx, t.dy, t.weight)).collect();
            assert_eq!(taps, vec![(1, 0, 7), (-1, 1, 3), (0, 1, 5), (1, 1, 1)]);
        },
        DitherStep::Done(_) => panic!("expected a kernel"),
    }
    match dither(&image, &vec![RED], DitherMode::Atkinson) {
        DitherStep::Diffuse(kernel) => {
            assert_eq!(kernel.denominator, 8);
            let taps: Vec<(i8, u8, u8)> = kernel.taps.iter().map(|t| (t.dx, t.dy, t.weight)).collect();
            assert_eq!(taps, vec![(1, 0, 1), (2, 0, 1), (-1, 1, 1), (0, 1, 1), (1, 1, 1), (0, 2, 1)]);
        },
        DitherStep::Done(_) => panic!("expected a kernel"),
    }
    assert!(ErrorKernel::of(DitherMode::Off).is_none());
    assert!(ErrorKernel::of(DitherMode::Ordered).is_none());
}

fn shares(kernel: &ErrorKernel, x: usize, y: usize, w: usize, h: usize) -> Vec<(usize, usize, u8)> {
    kernel.targets(x, y, w, h).iter().map(|t: &Target| (t.x, t.y, t.weight)).collect()
}

#[test]
fn floyd_steinberg_passes_on_the_whole_error_inside() {
    let kernel = ErrorKernel::of(DitherMode::FloydSteinberg).unwrap();
    let inside = shares(&kernel, 1, 1, 3, 3);
    assert_eq!(inside, vec![(2, 1, 7), (0, 2, 3), (1, 2, 5), (2, 2, 1)]);
    assert_eq!(inside.iter().map(|t| t.2 as u32).sum::<u32>(), 16);
}

#[test]
fn floyd_steinberg_drops_neighbours_outside() {
    let kernel = ErrorKernel::of(DitherMode::FloydSteinberg).unwrap();
    // the left edge must not wrap round to the row above
    assert_eq!(shares(&kernel, 0, 0, 3, 3), vec![(1, 0, 7), (0, 1, 5), (1, 1, 1)]);
    assert_eq!(shares(&kernel, 2, 0, 3, 3), vec![(1, 1, 3), (2, 1, 5)]);
    assert_eq!(shares(&kernel, 1, 2, 3, 3), vec![(2, 2, 7)]);
    assert_eq!(shares(&kernel, 2, 2, 3, 3), Vec::new());
    assert_eq!(shares(&kernel, 0, 0, 1, 1), Vec::new());
}

#[test]
fn atkinson_passes_on_three_quarters_inside() {
    let kernel = ErrorKernel::of(DitherMode::Atkinson).unwrap();
    let inside = shares(&kernel, 1, 0, 4, 3);
    assert_eq!(inside, vec![(2, 0, 1), (3, 0, 1), (0, 1, 1), (1, 1, 1), (2, 1, 1), (1, 2, 1)]);
    assert_eq!(inside.len() * 4, kernel.denominator as usize * 3);
    assert_eq!(shares(&kernel, 0, 0, 2, 2), vec![(1, 0, 1), (0, 1, 1), (1, 1, 1)]);
    assert_eq!(shares(&kernel, 3, 2, 4, 3), Vec::new());
}

#[test]
fn no_share_ever_leaves_the_raster() {
    for mode in [DitherMode::FloydSteinberg, DitherMode::Atkinson] {
        let kernel = ErrorKernel::of(mode).unwrap();
        for (w, h) in [(1usize, 1usize), (2, 3), (5, 4), (3, 1)] {
            for y in 0..h {
                for x in 0..w {
                    let targets = kernel.targets(x, y, w, h);
                    assert!(targets.iter().all(|t| t.x < w && t.y < h));
                    let total: u32 = targets.iter().map(|t| t.weight as u32).sum();
                    assert!(total <= kernel.denominator as u32);
                }
            }
        }
    }
}

// --- matching -------------------------------------------------------------

fn small_catalog() -> Vec<CatalogEntry> {
    vec![
        entry("DMC-310", [0, 0, 0], "Black"),
        entry("DMC-321", [199, 43, 59], "Red"),
        entry("DMC-B5200", [255, 255, 255], "Snow White"),
    ]
}

#[test]
fn palette_colours_that_share_a_thread_share_one_colour() {
    let palette = vec![[250, 250, 250, 255], [200, 40, 60, 255], [240, 240, 240, 255], [10, 0, 0, 255]];
    let catalog = small_catalog();
    let table = rank_table(&palette, &catalog, ColorMatchAlgorithm::Euclidean).unwrap();
    let plan = match_palette(&palette, &catalog, &table);
    assert_eq!(plan.assignment, vec![Some(0), Some(1), Some(0), Some(2)]);
    assert_eq!(plan.colors.len(), 3);
    assert_eq!(plan.colors[0].id, "DMC-B5200-color-1");
    assert_eq!(plan.colors[0].rgb, [255, 255, 255]);
    assert_eq!(plan.colors[1].id, "DMC-321-color-2");
    assert_eq!(plan.colors[1].rgb, [199, 43, 59]);
    assert_eq!(plan.colors[2].id, "DMC-310-color-3");
    let link = plan.colors[0].catalog.as_ref().unwrap();
    assert_eq!(link.id, "DMC-B5200");
    assert_eq!(link.name, "Snow White");
}

#[test]
fn matching_skips_transparent_palette_entries() {
    let palette = vec![[250, 250, 250, 0], [5, 5, 5, 255]];
    let catalog = small_catalog();
    let table = rank_table(&palette, &catalog, ColorMatchAlgorithm::Weighted).unwrap();
    let plan = match_palette(&palette, &catalog, &table);
    assert_eq!(plan.assignment, vec![None, Some(0)]);
    assert_eq!(plan.colors.len(), 1);
    assert_eq!(plan.colors[0].id, "DMC-310-color-1");
}

#[test]
fn matching_takes_the_first_thread_on_a_tie() {
    let catalog = vec![entry("a", [10, 0, 0], "A"), entry("b", [0, 10, 0], "B")];
    let palette = vec![[0, 0, 0, 255]];
    let table = rank_table(&palette, &catalog, ColorMatchAlgorithm::Euclidean).unwrap();
    assert_eq!(table, vec![vec![100, 100]]);
    let plan = match_palette(&palette, &catalog, &table);
    assert_eq!(plan.colors[0].id, "a-color-1");
}

#[test]
fn matching_against_an_empty_catalog_finds_nothing() {
    let palette = vec![RED, GREEN];
    let catalog = Vec::new();
    let table = rank_table(&palette, &catalog, ColorMatchAlgorithm::Euclidean).unwrap();
    let plan = match_palette(&palette, &catalog, &table);
    assert!(plan.colors.is_empty());
    assert_eq!(plan.assignment, vec![None, None]);
}

#[test]
fn matching_takes_keys_from_any_metric() {
    // keys as a caller would derive them from fractional distances
    let palette = vec![RED, GREEN, BLUE];
    let catalog = small_catalog();
    let keys = |distances: [f64; 3]| distances.iter().map(|d| d.to_bits()).collect::<Vec<u64>>();
    let table = vec![keys([52.5, 3.25, 60.0]), keys([80.0, 79.5, 79.5]), keys([0.5, 0.5, 0.25])];
    let plan = match_palette(&palette, &catalog, &table);
    assert_eq!(plan.assignment, vec![Some(0), Some(0), Some(1)]);
    assert_eq!(plan.colors.len(), 2);
    assert_eq!(plan.colors[0].id, "DMC-321-color-1");
    assert_eq!(plan.colors[1].id, "DMC-B5200-color-2");
}

#[test]
fn catalog_entries_with_one_identifier_count_as_one() {
    let catalog = vec![
        entry("DMC-310", [0, 0, 0], "Black"),
        entry("DMC-310", [8, 8, 8], "Black again"),
        entry("DMC-B5200", [255, 255, 255], "Snow White"),
    ];
    let palette = vec![[9, 9, 9, 255], [1, 1, 1, 255], WHITE];
    let table = rank_table(&palette, &catalog, ColorMatchAlgorithm::Euclidean).unwrap();
    let plan = match_palette(&palette, &catalog, &table);
    assert_eq!(plan.assignment, vec![Some(0), Some(0), Some(1)]);
    assert_eq!(plan.colors.len(), 2);
    assert_eq!(plan.colors[0].id, "DMC-310-color-1");
    assert_eq!(plan.colors[0].rgb, [8, 8, 8]);
    assert_eq!(plan.colors[1].id, "DMC-B5200-color-2");
}

#[test]
fn matching_merges_and_never_adds_a_colour() {
    let catalog = small_catalog();
    let mut palette = Vec::new();
    for i in 0..20u8 {
        palette.push([i.wrapping_mul(13), i.wrapping_mul(12), i.wrapping_mul(11), 255]);
    }
    for algorithm in [ColorMatchAlgorithm::Euclidean, ColorMatchAlgorithm::Weighted] {
        let table = rank_table(&palette, &catalog, algorithm).unwrap();
        let plan = match_palette(&palette, &catalog, &table);
        assert!(plan.colors.len() <= palette.len());
        assert!(plan.colors.len() <= catalog.len());
        assert!(plan.assignment.iter().all(|a| a.is_some()));
    }
    let two = vec![RED, GREEN];
    let table = rank_table(&two, &catalog, ColorMatchAlgorithm::Euclidean).unwrap();
    assert!(match_palette(&two, &catalog, &table).colors.len() <= 2);
}

#[test]
fn ranking_tables_are_checked_for_shape() {
    assert!(has_shape(&vec![vec![1, 2], vec![3, 4], vec![5, 6]], 3, 2));
    assert!(!has_shape(&vec![vec![1, 2], vec![3, 4]], 3, 2));
    assert!(!has_shape(&vec![vec![1, 2], vec![3]], 2, 2));
    assert!(has_shape(&Vec::new(), 0, 5));
    assert!(has_shape(&vec![Vec::new(), Vec::new()], 2, 0));
}

#[test]
fn lab_metrics_are_not_ranked_in_integers() {
    let palette = vec![RED];
    assert!(rank_table(&palette, &small_catalog(), ColorMatchAlgorithm::Ciede2000).is_none());
    assert!(rank_table(&palette, &small_catalog(), ColorMatchAlgorithm::Cie76).is_none());
    assert!(rank_table(&palette, &small_catalog(), ColorMatchAlgorithm::Cie94).is_none());
}

#[test]
fn plain_plan_numbers_the_palette() {
    let palette = vec![RED, [1, 2, 3, 50], BLUE];
    let plan = ColorPlan::plain(&palette);
    let ids: Vec<&str> = plan.colors.iter().map(|c| c.id.as_str()).collect();
    assert_eq!(ids, vec!["color-1", "color-2", "color-3"]);
    assert_eq!(plan.colors[2].rgb, [0, 0, 255]);
    assert!(plan.colors[0].catalog.is_none());
    assert_eq!(plan.assignment, vec![Some(0), None, Some(2)]);
    let many = ColorPlan::plain(&vec![RED; 12]);
    assert_eq!(many.colors[9].id, "color-10");
    assert_eq!(many.colors[11].id, "color-12");
}

// --- whole patterns -------------------------------------------------------

#[test]
fn four_colours_in_four_cells_keep_their_places() {
    let cells = [RED, GREEN, BLUE, BLACK];
    let image = raster(2, 2, cells.to_vec());
    let (palette, pattern) = make_pattern(&image, 4, DitherMode::Off, false, 0);
    assert_eq!(sorted(palette.clone()), sorted(cells.to_vec()));
    assert_eq!(pattern.colors.len(), 4);
    assert_eq!(pattern.pixel_ids.len(), 2);
    assert_eq!(
        pattern.pixel_ids,
        vec![
            vec![id_of(&pattern, &palette, RED), id_of(&pattern, &palette, GREEN)],
            vec![id_of(&pattern, &palette, BLUE), id_of(&pattern, &palette, BLACK)],
        ]
    );
    assert!(pattern.pixel_ids.iter().flatten().all(|id| !id.is_empty()));
    assert_eq!(pattern.preview.width, 2);
    assert_eq!(pattern.preview.height, 2);
    assert_eq!(pattern.preview.pixels, cells.to_vec());
    let out = done(dither(&image, &palette, DitherMode::Off));
    assert_eq!(out.pixels, cells.to_vec());
}

#[test]
fn a_transparent_cell_stays_empty() {
    let cells = [RED, GREEN, [0, 0, 255, 0], BLACK];
    let image = raster(2, 2, cells.to_vec());
    let (palette, pattern) = make_pattern(&image, 4, DitherMode::Off, false, 0);
    assert_eq!(palette.len(), 3);
    assert_eq!(sorted(palette.clone()), sorted(vec![RED, GREEN, BLACK]));
    assert_eq!(pattern.colors.len(), 3);
    assert_eq!(pattern.pixel_ids[1][0], "");
    assert_eq!(pattern.pixel_ids[0][0], id_of(&pattern, &palette, RED));
    assert_eq!(pattern.pixel_ids[0][1], id_of(&pattern, &palette, GREEN));
    assert_eq!(pattern.pixel_ids[1][1], id_of(&pattern, &palette, BLACK));
    assert_eq!(pattern.preview.pixel(0, 1), CLEAR);
    assert_eq!(pattern.preview.pixel(1, 1), BLACK);
}

#[test]
fn an_all_white_image_without_background_has_no_stitches() {
    let image = raster(4, 4, vec![WHITE; 16]);
    assert_eq!(quantize_image(&image, 8, true, 10), Err(ProcessError::EmptyPalette));
    let (palette, pattern) = make_pattern(&image, 8, DitherMode::Off, true, 10);
    assert!(palette.is_empty());
    assert!(pattern.colors.is_empty());
    assert_eq!(pattern.pixel_ids.len(), 4);
    assert!(pattern.pixel_ids.iter().all(|row| row.len() == 4 && row.iter().all(|id| id.is_empty())));
    assert!(pattern.preview.pixels.iter().all(|p| *p == CLEAR));
    // with the background kept the same image is one colour
    assert_eq!(quantize_image(&image, 8, false, 10), Ok(vec![WHITE]));
}

#[test]
fn images_without_area_are_refused() {
    assert_eq!(quantize_image(&raster(0, 3, Vec::new()), 4, false, 0), Err(ProcessError::InvalidDimensions));
    assert_eq!(quantize_image(&raster(3, 0, Vec::new()), 4, false, 0), Err(ProcessError::InvalidDimensions));
    assert_eq!(quantize_image(&raster(0, 0, Vec::new()), 4, true, 9), Err(ProcessError::InvalidDimensions));
}

#[test]
fn an_image_with_nothing_to_stitch_has_an_empty_palette() {
    let image = raster(2, 1, vec![CLEAR, [9, 9, 9, 127]]);
    assert_eq!(quantize_image(&image, 4, false, 0), Err(ProcessError::EmptyPalette));
    let image = raster(2, 1, vec![RED, GREEN]);
    assert_eq!(quantize_image(&image, 0, false, 0), Err(ProcessError::EmptyPalette));
}

#[test]
fn only_stitched_pixels_reach_the_quantizer() {
    let near_white = [250, 250, 250, 255];
    let image = raster(3, 2, vec![RED, CLEAR, near_white, GREEN, [1, 1, 1, 127], WHITE]);
    assert_eq!(collect_pixels(&image, false, 10), vec![RED, near_white, GREEN, WHITE]);
    assert_eq!(collect_pixels(&image, true, 10), vec![RED, GREEN]);
    assert_eq!(collect_pixels(&image, true, 0), vec![RED, near_white, GREEN, WHITE]);
    assert_eq!(sorted(quantize_image(&image, 4, true, 10).unwrap()), sorted(vec![RED, GREEN]));
}

#[test]
fn removed_background_cells_are_empty_and_the_rest_assigned() {
    let near_white = [250, 250, 250, 255];
    let image = raster(2, 2, vec![RED, near_white, WHITE, RED]);
    let (palette, pattern) = make_pattern(&image, 4, DitherMode::Off, true, 10);
    assert_eq!(palette, vec![RED]);
    assert_eq!(pattern.pixel_ids, vec![vec!["color-1", ""], vec!["", "color-1"]]);
    assert_eq!(pattern.preview.pixels, vec![RED, CLEAR, CLEAR, RED]);
}

#[test]
fn pixels_off_the_palette_go_to_the_nearest_colour() {
    // one colour allowed: every cell falls back on the scan of the palette
    let image = raster(2, 1, vec![[10, 0, 0, 255], [30, 0, 0, 255]]);
    let (palette, pattern) = make_pattern(&image, 1, DitherMode::Off, false, 0);
    assert_eq!(palette, vec![[20, 0, 0, 255]]);
    assert_eq!(pattern.pixel_ids, vec![vec!["color-1", "color-1"]]);
    assert_eq!(pattern.preview.pixels, vec![[20, 0, 0, 255], [20, 0, 0, 255]]);
}

#[test]
fn every_stitched_cell_names_a_listed_colour() {
    let mut pixels = Vec::new();
    for i in 0..48u8 {
        let alpha = if i % 7 == 0 { 0 } else { 255 };
        pixels.push([i.wrapping_mul(53), i.wrapping_mul(29), 255 - i, alpha]);
    }
    let image = raster(8, 6, pixels.clone());
    for mode in [DitherMode::Off, DitherMode::Ordered] {
        let (_, pattern) = make_pattern(&image, 5, mode, true, 40);
        assert!(pattern.colors.len() <= 5);
        for y in 0..6 {
            for x in 0..8 {
                let pixel = pixels[y * 8 + x];
                let id = &pattern.pixel_ids[y][x];
                if pixel_is_excluded(&pixel, true, 40) {
                    assert!(id.is_empty());
                    assert_eq!(pattern.preview.pixel(x, y), CLEAR);
                } else {
                    let color = pattern.colors.iter().find(|c| &c.id == id).expect("a listed colour");
                    assert_eq!(pattern.preview.pixel(x, y), opaque(&color.rgb));
                }
            }
        }
    }
}

#[test]
fn a_matched_pattern_uses_thread_colours() {
    let image = raster(2, 2, vec![[250, 250, 250, 255], [200, 40, 60, 255], [5, 5, 5, 255], CLEAR]);
    let palette = quantize_image(&image, 3, false, 0).unwrap();
    assert_eq!(palette.len(), 3);
    let dithered = done(dither(&image, &palette, DitherMode::Off));
    let catalog = small_catalog();
    let table = rank_table(&palette, &catalog, ColorMatchAlgorithm::Euclidean).unwrap();
    let plan = match_palette(&palette, &catalog, &table);
    let pattern = assign_pixels(&dithered, &palette, plan, false, 0);
    assert_eq!(pattern.colors.len(), 3);
    let id_at = |x: usize, y: usize| pattern.pixel_ids[y][x].clone();
    assert!(id_at(0, 0).starts_with("DMC-B5200-color-"));
    assert!(id_at(1, 0).starts_with("DMC-321-color-"));
    assert!(id_at(0, 1).starts_with("DMC-310-color-"));
    assert_eq!(id_at(1, 1), "");
    assert_eq!(pattern.preview.pixel(0, 0), WHITE);
    assert_eq!(pattern.preview.pixel(1, 0), [199, 43, 59, 255]);
    assert_eq!(pattern.preview.pixel(0, 1), BLACK);
    assert_eq!(pattern.preview.pixel(1, 1), CLEAR);
}

// --- the whole way in one call --------------------------------------------

fn finished(progress: Result<Progress, ProcessError>) -> Pattern {
    match progress {
        Ok(Progress::Finished(pattern)) => pattern,
        Ok(Progress::Pending(_)) => panic!("expected a finished pattern"),
        Err(e) => panic!("expected a pattern, got {:?}", e),
    }
}

#[test]
fn process_keeps_four_colours_in_four_cells() {
    let cells = vec![RED, GREEN, BLUE, BLACK];
    let image = raster(2, 2, cells.clone());
    let pattern = finished(process(&image, 4, DitherMode::Off, false, 0, None, ColorMatchAlgorithm::default()));
    let colours: Vec<Px> = pattern.colors.iter().map(|c| opaque(&c.rgb)).collect();
    assert_eq!(sorted(colours), sorted(cells.clone()));
    for (i, cell) in cells.iter().enumerate() {
        let id = &pattern.pixel_ids[i / 2][i % 2];
        let color = pattern.colors.iter().find(|c| &c.id == id).expect("a listed colour");
        assert_eq!(opaque(&color.rgb), *cell);
    }
    assert_eq!(pattern.preview.pixels, cells);
}

#[test]
fn process_leaves_a_transparent_cell_empty() {
    let image = raster(2, 2, vec![RED, GREEN, [0, 0, 255, 0], BLACK]);
    let pattern = finished(process(&image, 4, DitherMode::Off, false, 0, None, ColorMatchAlgorithm::default()));
    assert_eq!(pattern.colors.len(), 3);
    assert_eq!(pattern.pixel_ids[1][0], "");
    assert_eq!(pattern.pixel_ids.iter().flatten().filter(|id| id.is_empty()).count(), 1);
    assert_eq!(pattern.preview.pixel(0, 1), CLEAR);
}

#[test]
fn process_reports_an_all_background_image() {
    let image = raster(4, 4, vec![WHITE; 16]);
    let outcome = process(&image, 8, DitherMode::Off, true, 10, None, ColorMatchAlgorithm::default());
    assert!(matches!(outcome, Err(ProcessError::EmptyPalette)));
    // no stitches: the pattern of the empty palette has only empty cells
    let pattern = finish(&image, &Vec::new(), None, true, 10);
    assert!(pattern.colors.is_empty());
    assert!(pattern.pixel_ids.iter().flatten().all(|id| id.is_empty()));
}

#[test]
fn process_refuses_images_without_area() {
    let outcome = process(&raster(0, 7, Vec::new()), 8, DitherMode::Ordered, false, 0, None, ColorMatchAlgorithm::Euclidean);
    assert!(matches!(outcome, Err(ProcessError::InvalidDimensions)));
}

#[test]
fn process_matches_by_rgb_metrics() {
    let image = raster(2, 1, vec![[250, 250, 250, 255], [5, 5, 5, 255]]);
    let catalog = small_catalog();
    for algorithm in [ColorMatchAlgorithm::Euclidean, ColorMatchAlgorithm::Weighted] {
        let pattern = finished(process(&image, 2, DitherMode::Ordered, false, 0, Some(&catalog), algorithm));
        // the cut sorts the dark pixel before the light one
        assert_eq!(pattern.colors[0].id, "DMC-310-color-1");
        assert_eq!(pattern.colors[1].id, "DMC-B5200-color-2");
        assert_eq!(pattern.pixel_ids, vec![vec!["DMC-B5200-color-2", "DMC-310-color-1"]]);
        assert_eq!(pattern.preview.pixels, vec![WHITE, BLACK]);
    }
}

#[test]
fn process_hands_back_what_needs_fractions() {
    let image = raster(2, 1, vec![RED, GREEN]);
    let catalog = small_catalog();
    match process(&image, 2, DitherMode::FloydSteinberg, false, 0, Some(&catalog), ColorMatchAlgorithm::Euclidean) {
        Ok(Progress::Pending(pending)) => {
            assert_eq!(sorted(pending.palette.clone()), sorted(vec![RED, GREEN]));
            assert!(pending.dithered.is_none());
            assert_eq!(pending.kernel.unwrap().denominator, 16);
            assert_eq!(pending.table.unwrap().len(), 2);
        },
        _ => panic!("expected pending work"),
    }
    match process(&image, 2, DitherMode::Atkinson, false, 0, None, ColorMatchAlgorithm::default()) {
        Ok(Progress::Pending(pending)) => {
            assert!(pending.dithered.is_none());
            assert_eq!(pending.kernel.unwrap().denominator, 8);
            assert!(pending.table.is_none());
        },
        _ => panic!("expected pending work"),
    }
    match process(&image, 2, DitherMode::Off, false, 0, Some(&catalog), ColorMatchAlgorithm::Ciede2000) {
        Ok(Progress::Pending(pending)) => {
            assert_eq!(pending.dithered.unwrap().pixels, vec![RED, GREEN]);
            assert!(pending.kernel.is_none());
            assert!(pending.table.is_none());
        },
        _ => panic!("expected pending work"),
    }
}

#[test]
fn pending_work_is_finished_with_the_callers_results() {
    let image = raster(2, 1, vec![RED, BLUE]);
    let catalog = small_catalog();
    let pending = match process(&image, 2, DitherMode::Off, false, 0, Some(&catalog), ColorMatchAlgorithm::Cie94) {
        Ok(Progress::Pending(pending)) => pending,
        _ => panic!("expected pending work"),
    };
    let keys = |distances: [f64; 3]| distances.iter().map(|d| d.to_bits()).collect::<Vec<u64>>();
    let table: Vec<Vec<u64>> = pending
        .palette
        .iter()
        .map(|entry| if *entry == RED { keys([40.0, 2.5, 60.0]) } else { keys([30.5, 70.0, 71.0]) })
        .collect();
    let pattern = finish(&pending.dithered.unwrap(), &pending.palette, Some((&catalog, &table)), false, 0);
    assert_eq!(pattern.colors.len(), 2);
    assert!(pattern.pixel_ids[0][0].starts_with("DMC-321-color-"));
    assert!(pattern.pixel_ids[0][1].starts_with("DMC-310-color-"));
    assert_eq!(pattern.preview.pixels, vec![[199, 43, 59, 255], BLACK]);
}

#[test]
fn a_photo_sized_image_becomes_a_pattern() {
    let (width, height) = (240usize, 180usize);
    let mut pixels = Vec::with_capacity(width * height);
    let mut seed: u32 = 12345;
    for _ in 0..width * height {
        seed = seed.wrapping_mul(1_664_525).wrapping_add(1_013_904_223);
        let bytes = seed.to_le_bytes();
        pixels.push([bytes[1], bytes[2], bytes[3], if bytes[0] < 16 { 0 } else { 255 }]);
    }
    let image = raster(width, height, pixels.clone());
    let catalog = small_catalog();
    let pattern =
        finished(process(&image, 24, DitherMode::Ordered, true, 20, Some(&catalog), ColorMatchAlgorithm::Weighted));
    assert!(!pattern.colors.is_empty() && pattern.colors.len() <= 3);
    assert_eq!(pattern.pixel_ids.len(), height);
    assert_eq!(pattern.preview.pixels.len(), width * height);
    let plain = finished(process(&image, 24, DitherMode::Off, false, 0, None, ColorMatchAlgorithm::default()));
    assert_eq!(plain.colors.len(), 24);
    for (i, pixel) in pixels.iter().enumerate() {
        let id = &plain.pixel_ids[i / width][i % width];
        assert_eq!(id.is_empty(), pixel[3] < 128);
    }
}
