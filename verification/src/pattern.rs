//! The colours of a pattern and how palette entries map onto them.

use vstd::prelude::*;

use crate::raster::{color_of, is_transparent, pixel_is_transparent, rgb_of, Raster, Rgb, Rgba};
use crate::text::{decimal, lemma_decimal_not_empty, numbered};

verus! {

/// What ties a pattern colour to the catalog colour it was matched to.
pub struct CatalogLink {
    pub id: String,
    pub name: String,
}

/// One colour of a finished pattern.
pub struct PatternColor {
    pub id: String,
    pub rgb: Rgb,
    pub catalog: Option<CatalogLink>,
}

/// The colours of a pattern, and for each palette entry the position of its
/// colour in that list (none for an entry that is never stitched).
pub struct ColorPlan {
    pub colors: Vec<PatternColor>,
    pub assignment: Vec<Option<usize>>,
}

/// The identifier of colour number `number` when no catalog is involved.
pub open spec fn plain_id(number: nat) -> Seq<char> {
    "color-"@ + decimal(number)
}

/// `color` is palette entry `entry` under its numbered identifier.
pub open spec fn is_plain_color(color: PatternColor, entry: Rgba, number: nat) -> bool {
    &&& color.id@ == plain_id(number)
    &&& color.rgb == color_of(entry)
    &&& color.catalog is None
}

impl ColorPlan {
    /// The plan speaks of a palette of `entries` entries, and every position
    /// it names exists.
    pub open spec fn wf(&self, entries: nat) -> bool {
        &&& self.assignment@.len() == entries
        &&& forall|i: int|
            0 <= i < entries ==> (#[trigger] self.assignment@[i] matches Some(k) ==> k
                < self.colors@.len())
    }

    /// Every colour has an identifier that is not empty, so that none is
    /// taken for a cell without a stitch.
    pub open spec fn named(&self) -> bool {
        forall|k: int| 0 <= k < self.colors@.len() ==> (#[trigger] self.colors@[k]).id@.len() > 0
    }

    /// Every palette entry that is not transparent has a colour.
    pub open spec fn covers(&self, palette: Seq<Rgba>) -> bool {
        forall|i: int|
            0 <= i < palette.len() && !is_transparent(#[trigger] palette[i])
                ==> self.assignment@[i] is Some
    }

    /// The plan that keeps the palette as it is: entry `i` becomes colour
    /// `"color-<i + 1>"`, and each entry that is not transparent maps to its
    /// own colour.
    pub open spec fn is_plain(&self, palette: Seq<Rgba>) -> bool {
        &&& self.colors@.len() == palette.len()
        &&& self.assignment@.len() == palette.len()
        &&& forall|i: int|
            0 <= i < palette.len() ==> is_plain_color(
                #[trigger] self.colors@[i],
                palette[i],
                (i + 1) as nat,
            )
        &&& forall|i: int|
            0 <= i < palette.len() ==> #[trigger] self.assignment@[i] == (if is_transparent(
                palette[i],
            ) {
                None::<usize>
            } else {
                Some(i as usize)
            })
    }

    /// Keeps the palette as the list of colours, numbered from one in palette
    /// order.
    pub fn plain(palette: &Vec<Rgba>) -> (plan: ColorPlan)
        ensures
            plan.is_plain(palette@),
            plan.wf(palette@.len()),
            plan.covers(palette@),
            plan.named(),
    {
        let mut colors: Vec<PatternColor> = Vec::with_capacity(palette.len());
        let mut assignment: Vec<Option<usize>> = Vec::with_capacity(palette.len());
        let mut i: usize = 0;
        while i < palette.len()
            invariant
                i <= palette.len(),
                colors@.len() == i,
                assignment@.len() == i,
                forall|k: int| 0 <= k < i ==> (#[trigger] colors@[k]).id@.len() > 0,
                forall|k: int|
                    0 <= k < i ==> is_plain_color(#[trigger] colors@[k], palette@[k], (k + 1) as nat),
                forall|k: int|
                    0 <= k < i ==> #[trigger] assignment@[k] == (if is_transparent(palette@[k]) {
                        None::<usize>
                    } else {
                        Some(k as usize)
                    }),
            decreases palette.len() - i,
        {
            let entry = palette[i];
            proof {
                lemma_decimal_not_empty((i + 1) as nat);
            }
            colors.push(PatternColor { id: numbered("color-", i + 1), rgb: rgb_of(&entry), catalog: None });
            if pixel_is_transparent(&entry) {
                assignment.push(None);
            } else {
                assignment.push(Some(i));
            }
            i += 1;
        }
        ColorPlan { colors, assignment }
    }
}

/// Why no pattern could be made.
#[derive(Debug, Clone, Copy, PartialEq, Eq, Structural)]
pub enum ProcessError {
    /// The target width or height is zero.
    InvalidDimensions,
    /// No pixel is left to take colours from: the palette is empty, and the
    /// pattern has no stitches.
    EmptyPalette,
}

/// A finished pattern: its colours, the colour identifier of each cell (empty
/// for a cell without a stitch), and a picture of it.
pub struct Pattern {
    pub colors: Vec<PatternColor>,
    pub pixel_ids: Vec<Vec<String>>,
    pub preview: Raster,
}

} // verus!
