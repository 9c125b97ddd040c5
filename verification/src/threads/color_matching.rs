//! Colour-difference rankings and nearest-colour selection.
//!
//! Every metric orders pairs of colours by a non-negative distance.  The two
//! metrics that live in RGB space have exact integer rankings, computed here.
//! The three CIE Lab metrics are evaluated in floating point by the caller; the
//! selection rules below take their rankings as plain integer keys.

use vstd::prelude::*;

use crate::raster::Rgb;
use crate::text::same_text;

verus! {

/// The colour-difference model used to rank catalog colours.
#[derive(Debug, Clone, Copy, PartialEq, Eq, Structural)]
pub enum ColorMatchAlgorithm {
    Euclidean,
    Weighted,
    Cie76,
    Cie94,
    Ciede2000,
}

impl Default for ColorMatchAlgorithm {
    fn default() -> (algorithm: Self)
        ensures
            algorithm == ColorMatchAlgorithm::Ciede2000,
    {
        ColorMatchAlgorithm::Ciede2000
    }
}

/// Squared Euclidean distance between two colours in raw RGB space.
pub open spec fn euclidean_squared(c1: Rgb, c2: Rgb) -> int {
    let dr = c1[0] as int - c2[0] as int;
    let dg = c1[1] as int - c2[1] as int;
    let db = c1[2] as int - c2[2] as int;
    dr * dr + dg * dg + db * db
}

/// The red-mean weighted squared distance, scaled by 512 so that the channel
/// weights `2 + m/256`, `4` and `2 + (255 - m)/256` (with `m` the mean of the
/// two red samples) become the integers `1024 + r1 + r2`, `2048` and
/// `1534 - r1 - r2`.
pub open spec fn weighted_squared_x512(c1: Rgb, c2: Rgb) -> int {
    let red_sum = c1[0] as int + c2[0] as int;
    let dr = c1[0] as int - c2[0] as int;
    let dg = c1[1] as int - c2[1] as int;
    let db = c1[2] as int - c2[2] as int;
    (1024 + red_sum) * (dr * dr) + 2048 * (dg * dg) + (1534 - red_sum) * (db * db)
}

/// Square of the difference of two samples.
pub open spec fn sample_gap_squared(a: u8, b: u8) -> int {
    (a as int - b as int) * (a as int - b as int)
}

/// Square of the difference of two samples.
pub fn sample_distance_squared(a: u8, b: u8) -> (sq: u32)
    ensures
        sq == sample_gap_squared(a, b),
        sq <= 65025,
        sq == 0 <==> a == b,
{
    let gap: u32 = if a >= b {
        (a - b) as u32
    } else {
        (b - a) as u32
    };
    assert(gap * gap <= 65025) by (nonlinear_arith)
        requires
            gap <= 255,
    ;
    assert(gap * gap == (a as int - b as int) * (a as int - b as int)) by (nonlinear_arith)
        requires
            gap == a - b || gap == b - a,
    ;
    assert(gap * gap == 0 <==> gap == 0) by (nonlinear_arith);
    gap * gap
}

/// Squared Euclidean distance in RGB space.  Its square root is the Euclidean
/// metric, so it ranks colours exactly as that metric does.
pub fn euclidean_distance_squared(c1: Rgb, c2: Rgb) -> (d: u32)
    ensures
        d == euclidean_squared(c1, c2),
        d == 0 <==> c1 == c2,
{
    let d = sample_distance_squared(c1[0], c2[0]) + sample_distance_squared(c1[1], c2[1])
        + sample_distance_squared(c1[2], c2[2]);
    proof {
        if d == 0 {
            assert(c1 =~= c2);
        }
    }
    d
}

/// The weighted RGB distance, squared and scaled by 512.  It ranks colours
/// exactly as the weighted metric does.
pub fn weighted_distance_squared_x512(c1: Rgb, c2: Rgb) -> (d: u32)
    ensures
        d == weighted_squared_x512(c1, c2),
        d == 0 <==> c1 == c2,
{
    let red_sum: u32 = c1[0] as u32 + c2[0] as u32;
    let sr = sample_distance_squared(c1[0], c2[0]);
    let sg = sample_distance_squared(c1[1], c2[1]);
    let sb = sample_distance_squared(c1[2], c2[2]);
    let wr: u32 = 1024 + red_sum;
    let wb: u32 = 1534 - red_sum;
    assert(wr * sr <= 1534 * 65025 && (wr * sr == 0 <==> sr == 0)) by (nonlinear_arith)
        requires
            1024 <= wr <= 1534,
            sr <= 65025,
    ;
    assert(wb * sb <= 1534 * 65025 && (wb * sb == 0 <==> sb == 0)) by (nonlinear_arith)
        requires
            1024 <= wb <= 1534,
            sb <= 65025,
    ;
    let d = wr * sr + 2048 * sg + wb * sb;
    proof {
        if d == 0 {
            assert(c1 =~= c2);
        }
    }
    d
}

impl ColorMatchAlgorithm {
    /// The name under which the algorithm is selected.
    pub open spec fn name(self) -> Seq<char> {
        match self {
            ColorMatchAlgorithm::Euclidean => "euclidean"@,
            ColorMatchAlgorithm::Weighted => "weighted"@,
            ColorMatchAlgorithm::Cie76 => "cie76"@,
            ColorMatchAlgorithm::Cie94 => "cie94"@,
            ColorMatchAlgorithm::Ciede2000 => "ciede2000"@,
        }
    }

    /// The algorithm that a name selects.  A name that selects none falls back
    /// to CIEDE2000.
    pub open spec fn named(name: Seq<char>) -> ColorMatchAlgorithm {
        if name == "euclidean"@ {
            ColorMatchAlgorithm::Euclidean
        } else if name == "weighted"@ {
            ColorMatchAlgorithm::Weighted
        } else if name == "cie76"@ {
            ColorMatchAlgorithm::Cie76
        } else if name == "cie94"@ {
            ColorMatchAlgorithm::Cie94
        } else {
            ColorMatchAlgorithm::Ciede2000
        }
    }

    /// The algorithm's name.
    pub fn as_str(&self) -> (name: &'static str)
        ensures
            name@ == self.name(),
    {
        match self {
            ColorMatchAlgorithm::Euclidean => "euclidean",
            ColorMatchAlgorithm::Weighted => "weighted",
            ColorMatchAlgorithm::Cie76 => "cie76",
            ColorMatchAlgorithm::Cie94 => "cie94",
            ColorMatchAlgorithm::Ciede2000 => "ciede2000",
        }
    }

    /// Selects an algorithm by name; an unknown name selects CIEDE2000.
    pub fn from_name(name: &str) -> (algorithm: ColorMatchAlgorithm)
        ensures
            algorithm == Self::named(name@),
    {
        if same_text(name, "euclidean") {
            ColorMatchAlgorithm::Euclidean
        } else if same_text(name, "weighted") {
            ColorMatchAlgorithm::Weighted
        } else if same_text(name, "cie76") {
            ColorMatchAlgorithm::Cie76
        } else if same_text(name, "cie94") {
            ColorMatchAlgorithm::Cie94
        } else {
            ColorMatchAlgorithm::Ciede2000
        }
    }
}

// ---------------------------------------------------------------------------
// Rankings
// ---------------------------------------------------------------------------

/// Whether the algorithm measures in RGB space, where its ranking is an exact
/// integer.
pub open spec fn ranks_in_rgb(algorithm: ColorMatchAlgorithm) -> bool {
    algorithm == ColorMatchAlgorithm::Euclidean || algorithm == ColorMatchAlgorithm::Weighted
}

/// The integer by which an RGB-space algorithm ranks a pair of colours: a
/// strictly increasing function of its distance.
pub open spec fn rgb_rank(c1: Rgb, c2: Rgb, algorithm: ColorMatchAlgorithm) -> int {
    if algorithm == ColorMatchAlgorithm::Weighted {
        weighted_squared_x512(c1, c2)
    } else {
        euclidean_squared(c1, c2)
    }
}

/// A ranking does not depend on the order of the two colours, is never
/// negative, and is zero exactly for a colour and itself.
pub proof fn law_rank_is_a_distance(c1: Rgb, c2: Rgb, algorithm: ColorMatchAlgorithm)
    ensures
        rgb_rank(c1, c2, algorithm) == rgb_rank(c2, c1, algorithm),
        rgb_rank(c1, c2, algorithm) >= 0,
        rgb_rank(c1, c2, algorithm) == 0 <==> c1 == c2,
{
    let dr = c1[0] as int - c2[0] as int;
    let dg = c1[1] as int - c2[1] as int;
    let db = c1[2] as int - c2[2] as int;
    let red_sum = c1[0] as int + c2[0] as int;
    assert(dr * dr == (-dr) * (-dr) && dr * dr >= 0 && (dr * dr == 0 <==> dr == 0)) by (nonlinear_arith);
    assert(dg * dg == (-dg) * (-dg) && dg * dg >= 0 && (dg * dg == 0 <==> dg == 0)) by (nonlinear_arith);
    assert(db * db == (-db) * (-db) && db * db >= 0 && (db * db == 0 <==> db == 0)) by (nonlinear_arith);
    assert((1024 + red_sum) * (dr * dr) >= 0 && ((1024 + red_sum) * (dr * dr) == 0 <==> dr * dr == 0))
        by (nonlinear_arith)
        requires
            red_sum >= 0,
            dr * dr >= 0,
    ;
    assert((1534 - red_sum) * (db * db) >= 0 && ((1534 - red_sum) * (db * db) == 0 <==> db * db == 0))
        by (nonlinear_arith)
        requires
            red_sum <= 510,
            db * db >= 0,
    ;
    if rgb_rank(c1, c2, algorithm) == 0 {
        assert(c1 =~= c2);
    }
}

/// The key by which `algorithm` ranks the pair of colours, for the algorithms
/// that measure in RGB space; `None` for the CIE Lab algorithms, whose
/// distances are fractional.
pub fn color_distance_key(c1: Rgb, c2: Rgb, algorithm: ColorMatchAlgorithm) -> (key: Option<u64>)
    ensures
        key is Some <==> ranks_in_rgb(algorithm),
        key matches Some(k) ==> k == rgb_rank(c1, c2, algorithm) && (k == 0 <==> c1 == c2),
{
    match algorithm {
        ColorMatchAlgorithm::Euclidean => Some(euclidean_distance_squared(c1, c2) as u64),
        ColorMatchAlgorithm::Weighted => Some(weighted_distance_squared_x512(c1, c2) as u64),
        _ => None,
    }
}

/// Key `i` is the smallest, and the first of those as small.
pub open spec fn is_first_minimum(keys: Seq<u64>, i: int) -> bool {
    &&& 0 <= i < keys.len()
    &&& forall|j: int| 0 <= j < keys.len() ==> keys[i] <= #[trigger] keys[j]
    &&& forall|j: int| 0 <= j < i ==> keys[i] < #[trigger] keys[j]
}

/// The index of the first smallest key.
pub open spec fn first_minimum_index(keys: Seq<u64>) -> int {
    choose|i: int| is_first_minimum(keys, i)
}

/// There is exactly one first smallest key.
pub proof fn lemma_first_minimum_unique(keys: Seq<u64>, i: int)
    requires
        is_first_minimum(keys, i),
    ensures
        first_minimum_index(keys) == i,
{
    let k = first_minimum_index(keys);
    assert(is_first_minimum(keys, k));
    if k < i {
        assert(keys[i] < keys[k]);
        assert(keys[k] <= keys[i]);
    }
    if i < k {
        assert(keys[k] < keys[i]);
        assert(keys[i] <= keys[k]);
    }
}

/// Picks the candidate with the smallest key; of candidates with equal keys
/// the first wins.  `None` when there is no candidate.
pub fn first_minimum(keys: &Vec<u64>) -> (best: Option<usize>)
    ensures
        best is None <==> keys@.len() == 0,
        best matches Some(i) ==> is_first_minimum(keys@, i as int) && i as int == first_minimum_index(
            keys@,
        ),
{
    if keys.len() == 0 {
        return None;
    }
    let mut best: usize = 0;
    let mut j: usize = 1;
    while j < keys.len()
        invariant
            1 <= j <= keys.len(),
            best < j,
            forall|k: int| 0 <= k < j ==> keys@[best as int] <= #[trigger] keys@[k],
            forall|k: int| 0 <= k < best ==> keys@[best as int] < #[trigger] keys@[k],
        decreases keys.len() - j,
    {
        if keys[j] < keys[best] {
            best = j;
        }
        j += 1;
    }
    proof {
        lemma_first_minimum_unique(keys@, best as int);
    }
    Some(best)
}

// ---------------------------------------------------------------------------
// The nearest catalog colour
// ---------------------------------------------------------------------------

/// A colour of a reference catalog: its identifier, its colour and the name
/// under which it is sold.
pub struct CatalogEntry {
    pub id: String,
    pub rgb: Rgb,
    pub name: String,
}

/// The catalog colour found nearest to a target, with the key that ranked it.
pub struct ColorMatch {
    pub color: Rgb,
    pub color_id: String,
    pub distance_key: u64,
    pub name: String,
}

/// The keys of `target` against each catalog colour.
pub open spec fn is_rank_row(
    keys: Seq<u64>,
    target: Rgb,
    catalog: Seq<CatalogEntry>,
    algorithm: ColorMatchAlgorithm,
) -> bool {
    &&& keys.len() == catalog.len()
    &&& forall|j: int|
        0 <= j < catalog.len() ==> #[trigger] keys[j] == rgb_rank(target, catalog[j].rgb, algorithm)
}

/// Ranks every catalog colour against `target`, for the algorithms that
/// measure in RGB space; `None` for the others.
pub fn distance_keys(
    target: Rgb,
    catalog: &Vec<CatalogEntry>,
    algorithm: ColorMatchAlgorithm,
) -> (keys: Option<Vec<u64>>)
    ensures
        keys is Some <==> ranks_in_rgb(algorithm),
        keys matches Some(row) ==> is_rank_row(row@, target, catalog@, algorithm),
{
    match algorithm {
        ColorMatchAlgorithm::Euclidean | ColorMatchAlgorithm::Weighted => {},
        _ => {
            return None;
        },
    }
    let mut row: Vec<u64> = Vec::with_capacity(catalog.len());
    let mut j: usize = 0;
    while j < catalog.len()
        invariant
            ranks_in_rgb(algorithm),
            j <= catalog.len(),
            row@.len() == j,
            forall|k: int| 0 <= k < j ==> #[trigger] row@[k] == rgb_rank(target, catalog@[k].rgb, algorithm),
        decreases catalog.len() - j,
    {
        match color_distance_key(target, catalog[j].rgb, algorithm) {
            Some(key) => {
                row.push(key);
            },
            None => {
                return None;
            },
        }
        j += 1;
    }
    Some(row)
}

/// A colour that stands in the catalog is found as itself.  Where the keys
/// rank the catalog against `target` by a metric that measures in RGB space,
/// and entry `i` is the first of that very colour, entry `i` is the nearest,
/// at distance zero.
pub proof fn law_exact_color_found(
    keys: Seq<u64>,
    target: Rgb,
    catalog: Seq<CatalogEntry>,
    algorithm: ColorMatchAlgorithm,
    i: int,
)
    requires
        ranks_in_rgb(algorithm),
        is_rank_row(keys, target, catalog, algorithm),
        0 <= i < catalog.len(),
        catalog[i].rgb == target,
        forall|j: int| 0 <= j < i ==> (#[trigger] catalog[j]).rgb != target,
    ensures
        is_first_minimum(keys, i),
        first_minimum_index(keys) == i,
        keys[i] == 0,
{
    law_rank_is_a_distance(target, catalog[i].rgb, algorithm);
    assert forall|j: int| 0 <= j < i implies keys[i] < #[trigger] keys[j] by {
        law_rank_is_a_distance(target, catalog[j].rgb, algorithm);
    }
    lemma_first_minimum_unique(keys, i);
}

/// Finds the catalog colour with the smallest key, where `keys[j]` ranks
/// `palette[j]`; of colours ranked equal the first in the catalog wins.
/// `None` when the catalog is empty.
pub fn find_closest_color(palette: &Vec<CatalogEntry>, keys: &Vec<u64>) -> (found: Option<ColorMatch>)
    requires
        keys@.len() == palette@.len(),
    ensures
        found is None <==> palette@.len() == 0,
        found matches Some(m) ==> {
            let i = first_minimum_index(keys@);
            &&& is_first_minimum(keys@, i)
            &&& m.color == palette@[i].rgb
            &&& m.color_id@ == palette@[i].id@
            &&& m.name@ == palette@[i].name@
            &&& m.distance_key == keys@[i]
        },
{
    match first_minimum(keys) {
        None => None,
        Some(i) => {
            let entry = &palette[i];
            Some(
                ColorMatch {
                    color: entry.rgb,
                    color_id: entry.id.clone(),
                    distance_key: keys[i],
                    name: entry.name.clone(),
                },
            )
        },
    }
}

} // verus!
