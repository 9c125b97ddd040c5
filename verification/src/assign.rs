//! Assigning a colour to every cell of a dithered raster.
//!
//! A cell without a stitch (transparent, or background that is to be removed)
//! gets the empty identifier.  Every other cell gets the colour of the palette
//! entry nearest to its pixel.  Pixels that are exactly a palette colour, the
//! usual case after dithering, are found in a table; the others by a scan of
//! the palette.  Both ways give the same entry.

use std::collections::HashMap;
use vstd::prelude::*;

use crate::dither::{
    closest_index, dithered_pixel, find_closest_index, has_opaque, is_closest, law_ordered_on_palette,
    lemma_closest_exists, lemma_closest_unique, rgb_gap, DitherMode,
};
use crate::pattern::{ColorPlan, Pattern, PatternColor};
use crate::raster::{
    is_excluded, is_transparent, lemma_cell_in_range, opaque, opaque_pixel, pixel_is_excluded,
    pixel_is_transparent, same_rgb, Raster, Rgba,
};

verus! {

/// The three colour samples of a pixel as one number.
pub open spec fn packed(pixel: Rgba) -> int {
    pixel[0] as int * 65536 + pixel[1] as int * 256 + pixel[2] as int
}

fn pack(pixel: &Rgba) -> (key: u32)
    ensures
        key == packed(*pixel),
{
    pixel[0] as u32 * 65536 + pixel[1] as u32 * 256 + pixel[2] as u32
}

/// Two pixels have the same colour exactly when their distance is zero.
pub proof fn lemma_gap_zero(a: Rgba, b: Rgba)
    ensures
        rgb_gap(a, b) >= 0,
        rgb_gap(a, b) == 0 <==> packed(a) == packed(b),
{
    let dr = a[0] as int - b[0] as int;
    let dg = a[1] as int - b[1] as int;
    let db = a[2] as int - b[2] as int;
    assert(dr * dr >= 0 && (dr * dr == 0 <==> dr == 0)) by (nonlinear_arith);
    assert(dg * dg >= 0 && (dg * dg == 0 <==> dg == 0)) by (nonlinear_arith);
    assert(db * db >= 0 && (db * db == 0 <==> db == 0)) by (nonlinear_arith);
}

/// A table from exact colours to palette entries.
pub struct ColorIndex {
    first: HashMap<u32, usize>,
}

impl ColorIndex {
    /// Whether the table holds the colour of `pixel`.
    pub closed spec fn holds(&self, pixel: Rgba) -> bool {
        self.first@.contains_key(packed(pixel) as u32)
    }

    /// The table is that of `palette`: it holds the colour of every palette
    /// entry that is not transparent, and every colour in it leads to the
    /// first palette entry of that colour that is not transparent.
    pub closed spec fn indexes(&self, palette: Seq<Rgba>) -> bool {
        &&& forall|j: int|
            0 <= j < palette.len() && !is_transparent(#[trigger] palette[j]) ==> self.holds(palette[j])
        &&& forall|key: u32| #[trigger]
            self.first@.contains_key(key) ==> {
                let i = self.first@[key];
                &&& i < palette.len()
                &&& !is_transparent(palette[i as int])
                &&& packed(palette[i as int]) == key
                &&& forall|j: int|
                    0 <= j < i && !is_transparent(#[trigger] palette[j]) ==> packed(palette[j]) != key
            }
    }

    /// The table of a palette holds a pixel exactly when the pixel shows the
    /// colour of a palette entry that is not transparent: only a pixel off
    /// the palette is left to the scan.
    pub proof fn lemma_holds_palette_colours(&self, palette: Seq<Rgba>, pixel: Rgba)
        requires
            self.indexes(palette),
        ensures
            self.holds(pixel) <==> exists|j: int|
                0 <= j < palette.len() && !is_transparent(#[trigger] palette[j]) && same_rgb(
                    palette[j],
                    pixel,
                ),
    {
        if self.holds(pixel) {
            let key = packed(pixel) as u32;
            let i = self.first@[key] as int;
            assert(self.first@.contains_key(key));
            assert(!is_transparent(palette[i]) && same_rgb(palette[i], pixel));
        }
        if exists|j: int|
            0 <= j < palette.len() && !is_transparent(#[trigger] palette[j]) && same_rgb(palette[j], pixel) {
            let j = choose|j: int|
                0 <= j < palette.len() && !is_transparent(#[trigger] palette[j]) && same_rgb(
                    palette[j],
                    pixel,
                );
            assert(self.holds(palette[j]));
            assert(packed(palette[j]) == packed(pixel));
        }
    }

    /// Builds the table of a palette, leaving out its transparent entries.
    pub fn build(palette: &Vec<Rgba>) -> (index: ColorIndex)
        ensures
            index.indexes(palette@),
    {
        broadcast use vstd::std_specs::hash::group_hash_axioms;

        let mut first: HashMap<u32, usize> = HashMap::new();
        let mut i: usize = 0;
        while i < palette.len()
            invariant
                i <= palette.len(),
                forall|key: u32| #[trigger]
                    first@.contains_key(key) ==> {
                        let k = first@[key];
                        &&& k < i
                        &&& !is_transparent(palette@[k as int])
                        &&& packed(palette@[k as int]) == key
                        &&& forall|j: int|
                            0 <= j < k && !is_transparent(#[trigger] palette@[j]) ==> packed(palette@[j])
                                != key
                    },
                forall|j: int|
                    0 <= j < i && !is_transparent(#[trigger] palette@[j]) ==> first@.contains_key(
                        packed(palette@[j]) as u32,
                    ),
            decreases palette.len() - i,
        {
            let entry = palette[i];
            if !pixel_is_transparent(&entry) {
                let key = pack(&entry);
                if !first.contains_key(&key) {
                    first.insert(key, i);
                }
            }
            i += 1;
        }
        ColorIndex { first }
    }

    /// Whether the table holds the colour of `pixel`, so that looking the
    /// pixel up takes no scan of the palette.
    pub fn contains(&self, pixel: &Rgba) -> (held: bool)
        ensures
            held == self.holds(*pixel),
    {
        broadcast use vstd::std_specs::hash::group_hash_axioms;

        let key = pack(pixel);
        self.first.contains_key(&key)
    }

    /// The index of the palette entry nearest to `pixel`: by the table where
    /// the pixel is exactly a palette colour, else by a scan of the palette.
    pub fn lookup(&self, pixel: &Rgba, palette: &Vec<Rgba>) -> (found: Option<usize>)
        requires
            self.indexes(palette@),
        ensures
            found is Some <==> has_opaque(palette@),
            found matches Some(i) ==> is_closest(palette@, *pixel, i as int) && i as int == closest_index(
                palette@,
                *pixel,
            ),
    {
        broadcast use vstd::std_specs::hash::group_hash_axioms;

        let key = pack(pixel);
        match self.first.get(&key) {
            Some(i) => {
                proof {
                    assert(self.first@.contains_key(key));
                    let at = *i as int;
                    lemma_gap_zero(*pixel, palette@[at]);
                    assert forall|j: int|
                        0 <= j < palette@.len() && !is_transparent(
                            #[trigger] palette@[j],
                        ) implies rgb_gap(*pixel, palette@[at]) <= rgb_gap(*pixel, palette@[j]) by {
                        lemma_gap_zero(*pixel, palette@[j]);
                    }
                    assert forall|j: int| 0 <= j < at && !is_transparent(#[trigger] palette@[j]) implies rgb_gap(
                        *pixel,
                        palette@[at],
                    ) < rgb_gap(*pixel, palette@[j]) by {
                        lemma_gap_zero(*pixel, palette@[j]);
                    }
                    lemma_closest_unique(palette@, *pixel, at);
                }
                Some(*i)
            },
            None => find_closest_index(pixel, palette),
        }
    }
}

/// The position, in the list of colours, of the colour of a cell; none for a
/// cell without a stitch.
pub open spec fn cell_color(
    pixel: Rgba,
    palette: Seq<Rgba>,
    assignment: Seq<Option<usize>>,
    remove_background: bool,
    threshold: u8,
) -> Option<usize> {
    if is_excluded(pixel, remove_background, threshold) || !has_opaque(palette) {
        None
    } else {
        assignment[closest_index(palette, pixel)]
    }
}

/// The identifier written into a cell: that of its colour, or the empty
/// string for a cell without a stitch.
pub open spec fn cell_id(colors: Seq<PatternColor>, cell: Option<usize>) -> Seq<char> {
    match cell {
        Some(k) => colors[k as int].id@,
        None => Seq::empty(),
    }
}

/// The pixel shown for a cell: its colour, opaque, or a fully transparent
/// pixel for a cell without a stitch.
pub open spec fn cell_pixel(colors: Seq<PatternColor>, cell: Option<usize>) -> Rgba {
    match cell {
        Some(k) => opaque_pixel(colors[k as int].rgb),
        None => [0u8, 0u8, 0u8, 0u8],
    }
}

/// `pattern` is what assignment makes of the dithered raster: the colours of
/// the plan, and per cell the identifier and the preview pixel of its colour.
pub open spec fn is_assigned(
    pattern: Pattern,
    dithered: Raster,
    palette: Seq<Rgba>,
    plan: ColorPlan,
    remove_background: bool,
    threshold: u8,
) -> bool {
    &&& pattern.colors == plan.colors
    &&& pattern.pixel_ids@.len() == dithered.height
    &&& forall|y: int| 0 <= y < dithered.height ==> (#[trigger] pattern.pixel_ids@[y])@.len() == dithered.width
    &&& pattern.preview.wf()
    &&& pattern.preview.width == dithered.width
    &&& pattern.preview.height == dithered.height
    &&& forall|x: int, y: int|
        0 <= x < dithered.width && 0 <= y < dithered.height ==> (#[trigger] pattern.pixel_ids@[y]@[x])@
            == cell_id(
            plan.colors@,
            cell_color(dithered.at(x, y), palette, plan.assignment@, remove_background, threshold),
        )
    &&& forall|x: int, y: int|
        0 <= x < dithered.width && 0 <= y < dithered.height ==> #[trigger] pattern.preview.at(x, y)
            == cell_pixel(
            plan.colors@,
            cell_color(dithered.at(x, y), palette, plan.assignment@, remove_background, threshold),
        )
}

/// Gives every cell of the dithered raster its colour.  `palette` is the
/// palette that the raster was dithered with, and `plan` says which colour
/// each of its entries has become.
pub fn assign_pixels(
    dithered: &Raster,
    palette: &Vec<Rgba>,
    plan: ColorPlan,
    remove_background: bool,
    threshold: u8,
) -> (pattern: Pattern)
    requires
        dithered.wf(),
        plan.wf(palette@.len()),
    ensures
        is_assigned(pattern, *dithered, palette@, plan, remove_background, threshold),
{
    let index = ColorIndex::build(palette);
    let width = dithered.width;
    let height = dithered.height;
    let count = dithered.pixels.len();
    let mut preview: Vec<Rgba> = Vec::with_capacity(count);
    let mut rows: Vec<Vec<String>> = Vec::with_capacity(height);
    let mut y: usize = 0;
    while y < height
        invariant
            dithered.wf(),
            plan.wf(palette@.len()),
            index.indexes(palette@),
            width == dithered.width,
            height == dithered.height,
            count == dithered.pixels@.len(),
            y <= height,
            rows@.len() == y,
            preview@.len() == y * width,
            forall|r: int| 0 <= r < y ==> (#[trigger] rows@[r])@.len() == width,
            forall|c: int, r: int|
                0 <= c < width && 0 <= r < y ==> (#[trigger] rows@[r]@[c])@ == cell_id(
                    plan.colors@,
                    cell_color(dithered.at(c, r), palette@, plan.assignment@, remove_background, threshold),
                ),
            forall|k: int|
                0 <= k < preview@.len() ==> #[trigger] preview@[k] == cell_pixel(
                    plan.colors@,
                    cell_color(dithered.pixels@[k], palette@, plan.assignment@, remove_background, threshold),
                ),
        decreases height - y,
    {
        let mut row: Vec<String> = Vec::with_capacity(width);
        let mut x: usize = 0;
        while x < width
            invariant
                dithered.wf(),
                plan.wf(palette@.len()),
                index.indexes(palette@),
                width == dithered.width,
                height == dithered.height,
                count == dithered.pixels@.len(),
                y < height,
                x <= width,
                row@.len() == x,
                preview@.len() == y * width + x,
                forall|c: int|
                    0 <= c < x ==> (#[trigger] row@[c])@ == cell_id(
                        plan.colors@,
                        cell_color(
                            dithered.at(c, y as int),
                            palette@,
                            plan.assignment@,
                            remove_background,
                            threshold,
                        ),
                    ),
                forall|k: int|
                    0 <= k < preview@.len() ==> #[trigger] preview@[k] == cell_pixel(
                        plan.colors@,
                        cell_color(
                            dithered.pixels@[k],
                            palette@,
                            plan.assignment@,
                            remove_background,
                            threshold,
                        ),
                    ),
            decreases width - x,
        {
            let pixel = dithered.pixel(x, y);
            proof {
                lemma_cell_in_range(x as int, y as int, width as int, height as int);
            }
            let cell = if pixel_is_excluded(&pixel, remove_background, threshold) {
                None
            } else {
                match index.lookup(&pixel, palette) {
                    Some(i) => plan.assignment[i],
                    None => None,
                }
            };
            assert(cell == cell_color(pixel, palette@, plan.assignment@, remove_background, threshold));
            match cell {
                Some(k) => {
                    let color = &plan.colors[k];
                    row.push(color.id.clone());
                    preview.push(opaque(&color.rgb));
                },
                None => {
                    row.push(String::new());
                    let clear: Rgba = [0, 0, 0, 0];
                    assert(clear =~= cell_pixel(plan.colors@, None));
                    preview.push(clear);
                },
            }
            x += 1;
        }
        rows.push(row);
        proof {
            assert((y + 1) * width == y * width + width) by (nonlinear_arith);
        }
        y += 1;
    }
    let ghost pixels = preview@;
    proof {
        assert(height * width == width * height) by (nonlinear_arith);
    }
    let pattern = Pattern {
        colors: plan.colors,
        pixel_ids: rows,
        preview: Raster { width, height, pixels: preview },
    };
    proof {
        assert forall|c: int, r: int|
            0 <= c < dithered.width && 0 <= r < dithered.height implies #[trigger] pattern.preview.at(
            c,
            r,
        ) == cell_pixel(
            plan.colors@,
            cell_color(dithered.at(c, r), palette@, plan.assignment@, remove_background, threshold),
        ) by {
            lemma_cell_in_range(c, r, width as int, height as int);
        }
    }
    pattern
}

/// What ordered dithering makes of a pixel is found in the table: after such
/// dithering no cell is left to the scan of the palette.
pub proof fn law_dithered_pixels_in_table(index: ColorIndex, palette: Seq<Rgba>, pixel: Rgba, x: int, y: int)
    requires
        index.indexes(palette),
        has_opaque(palette),
        !is_transparent(pixel),
    ensures
        index.holds(dithered_pixel(DitherMode::Ordered, pixel, x, y, palette)),
{
    law_ordered_on_palette(pixel, x, y, palette);
    let out = dithered_pixel(DitherMode::Ordered, pixel, x, y, palette);
    let i = choose|i: int| 0 <= i < palette.len() && !is_transparent(#[trigger] palette[i]) && out == palette[i];
    index.lemma_holds_palette_colours(palette, out);
}

/// Every cell is accounted for.  A cell whose pixel is transparent, or
/// background that is to be removed, holds the empty identifier.  Every other
/// cell holds the identifier of a colour in the list, provided that the
/// palette has a colour to offer and the plan gives each of them a colour;
/// and that identifier is not the empty one where the plan names its
/// colours.
pub proof fn law_every_cell_assigned(
    pattern: Pattern,
    dithered: Raster,
    palette: Seq<Rgba>,
    plan: ColorPlan,
    remove_background: bool,
    threshold: u8,
    x: int,
    y: int,
)
    requires
        is_assigned(pattern, dithered, palette, plan, remove_background, threshold),
        plan.wf(palette.len()),
        0 <= x < dithered.width,
        0 <= y < dithered.height,
    ensures
        is_excluded(dithered.at(x, y), remove_background, threshold) ==> pattern.pixel_ids@[y]@[x]@
            == Seq::<char>::empty(),
        !is_excluded(dithered.at(x, y), remove_background, threshold) && has_opaque(palette)
            && plan.covers(palette) ==> exists|k: int|
            0 <= k < pattern.colors@.len() && pattern.pixel_ids@[y]@[x]@ == (#[trigger] pattern.colors@[k]).id@,
        !is_excluded(dithered.at(x, y), remove_background, threshold) && has_opaque(palette)
            && plan.covers(palette) && plan.named() ==> pattern.pixel_ids@[y]@[x]@.len() > 0,
{
    let pixel = dithered.at(x, y);
    let cell = cell_color(pixel, palette, plan.assignment@, remove_background, threshold);
    assert(pattern.pixel_ids@[y]@[x]@ == cell_id(plan.colors@, cell));
    if !is_excluded(pixel, remove_background, threshold) && has_opaque(palette) && plan.covers(palette) {
        let i = closest_index(palette, pixel);
        let w = choose|w: int| 0 <= w < palette.len() && !is_transparent(#[trigger] palette[w]);
        lemma_closest_exists(palette, pixel);
        assert(is_closest(palette, pixel, i));
        assert(!is_transparent(palette[i]));
        assert(plan.assignment@[i] is Some);
        let k = plan.assignment@[i]->Some_0 as int;
        assert(pattern.pixel_ids@[y]@[x]@ == pattern.colors@[k].id@);
    }
}

} // verus!
