//! Thread colour catalogs and the matching of colours onto them.
//!
//! The colour cards themselves are data that the application loads; the
//! library works on whatever cards it is handed.

pub mod color_matching;

use vstd::prelude::*;

use crate::raster::Rgb;
use crate::threads::color_matching::CatalogEntry;

verus! {

/// Supported thread brands.
#[derive(Debug, Clone, Copy, PartialEq, Eq, Structural)]
pub enum ThreadBrand {
    DMC,
    Anchor,
    Kreinik,
}

impl ThreadBrand {
    /// The brand's name as text.
    pub open spec fn text(self) -> Seq<char> {
        match self {
            ThreadBrand::DMC => "DMC"@,
            ThreadBrand::Anchor => "Anchor"@,
            ThreadBrand::Kreinik => "Kreinik"@,
        }
    }

    /// The brand's name.
    pub fn as_str(&self) -> (name: &'static str)
        ensures
            name@ == self.text(),
    {
        match self {
            ThreadBrand::DMC => "DMC",
            ThreadBrand::Anchor => "Anchor",
            ThreadBrand::Kreinik => "Kreinik",
        }
    }

    /// The brand's name; what the brand prints as.
    pub fn to_text(&self) -> (name: String)
        ensures
            name@ == self.text(),
    {
        String::from_str(self.as_str())
    }
}

/// Unified thread colour representation.
pub struct ThreadColor {
    pub code: String,
    pub name: String,
    pub rgb: Rgb,
    pub brand: ThreadBrand,
    pub category: Option<String>,
}

impl ThreadColor {
    /// A copy of the thread colour.
    pub fn duplicate(&self) -> (copy: ThreadColor)
        ensures
            copy == *self,
    {
        let category = match &self.category {
            Some(text) => Some(text.clone()),
            None => None,
        };
        ThreadColor {
            code: self.code.clone(),
            name: self.name.clone(),
            rgb: self.rgb,
            brand: self.brand,
            category,
        }
    }

    /// The identifier under which the thread enters a catalog: brand, a
    /// hyphen, and the brand's code for the colour.
    pub open spec fn catalog_id(&self) -> Seq<char> {
        self.brand.text() + "-"@ + self.code@
    }

    /// The thread as a catalog colour to match against.
    pub fn catalog_entry(&self) -> (entry: CatalogEntry)
        ensures
            entry.id@ == self.catalog_id(),
            entry.rgb == self.rgb,
            entry.name@ == self.name@,
    {
        let id = self.brand.to_text().concat("-").concat(self.code.as_str());
        CatalogEntry { id, rgb: self.rgb, name: self.name.clone() }
    }
}

/// Every thread of the list is of the given brand.
pub open spec fn all_of_brand(threads: Seq<ThreadColor>, brand: ThreadBrand) -> bool {
    forall|i: int| 0 <= i < threads.len() ==> (#[trigger] threads[i]).brand == brand
}

fn card_is_of_brand(card: &Vec<ThreadColor>, brand: ThreadBrand) -> (uniform: bool)
    ensures
        uniform == all_of_brand(card@, brand),
{
    let mut i: usize = 0;
    while i < card.len()
        invariant
            i <= card.len(),
            forall|k: int| 0 <= k < i ==> (#[trigger] card@[k]).brand == brand,
        decreases card.len() - i,
    {
        if card[i].brand != brand {
            return false;
        }
        i += 1;
    }
    true
}

/// The colour cards of the supported brands.  Each card is meant to hold the
/// threads of its own brand.
pub struct ThreadLibrary {
    pub dmc: Vec<ThreadColor>,
    pub anchor: Vec<ThreadColor>,
    pub kreinik: Vec<ThreadColor>,
}

impl ThreadLibrary {
    /// The colour card of one brand.
    pub open spec fn card(&self, brand: ThreadBrand) -> Seq<ThreadColor> {
        match brand {
            ThreadBrand::DMC => self.dmc@,
            ThreadBrand::Anchor => self.anchor@,
            ThreadBrand::Kreinik => self.kreinik@,
        }
    }

    /// Each card holds threads of its own brand only.
    pub open spec fn sorted_by_brand(&self) -> bool {
        &&& all_of_brand(self.dmc@, ThreadBrand::DMC)
        &&& all_of_brand(self.anchor@, ThreadBrand::Anchor)
        &&& all_of_brand(self.kreinik@, ThreadBrand::Kreinik)
    }

    /// Whether each card holds threads of its own brand only.
    pub fn is_sorted_by_brand(&self) -> (sorted: bool)
        ensures
            sorted == self.sorted_by_brand(),
    {
        card_is_of_brand(&self.dmc, ThreadBrand::DMC) && card_is_of_brand(&self.anchor, ThreadBrand::Anchor)
            && card_is_of_brand(&self.kreinik, ThreadBrand::Kreinik)
    }

    /// All cards one after the other: DMC, then Anchor, then Kreinik.
    pub open spec fn all(&self) -> Seq<ThreadColor> {
        self.dmc@ + self.anchor@ + self.kreinik@
    }
}

fn extend_with(threads: &mut Vec<ThreadColor>, card: &Vec<ThreadColor>)
    ensures
        final(threads)@ == old(threads)@ + card@,
{
    let ghost before = threads@;
    let mut i: usize = 0;
    while i < card.len()
        invariant
            i <= card.len(),
            threads@ == before + card@.take(i as int),
        decreases card.len() - i,
    {
        threads.push(card[i].duplicate());
        proof {
            assert(card@.take(i + 1) =~= card@.take(i as int).push(card@[i as int]));
            assert(threads@ =~= before + card@.take(i + 1));
        }
        i += 1;
    }
    proof {
        assert(card@.take(card.len() as int) =~= card@);
    }
}

/// Get all threads for a specific brand: the card of that brand, every
/// thread of which carries the brand.
pub fn get_threads_by_brand(library: &ThreadLibrary, brand: ThreadBrand) -> (threads: Vec<ThreadColor>)
    requires
        library.sorted_by_brand(),
    ensures
        threads@ == library.card(brand),
        all_of_brand(threads@, brand),
{
    let mut threads: Vec<ThreadColor> = Vec::new();
    match brand {
        ThreadBrand::DMC => extend_with(&mut threads, &library.dmc),
        ThreadBrand::Anchor => extend_with(&mut threads, &library.anchor),
        ThreadBrand::Kreinik => extend_with(&mut threads, &library.kreinik),
    }
    assert(threads@ =~= library.card(brand));
    threads
}

/// Get all available threads from all brands.
pub fn get_all_threads(library: &ThreadLibrary) -> (threads: Vec<ThreadColor>)
    ensures
        threads@ == library.all(),
        threads@.len() == library.dmc@.len() + library.anchor@.len() + library.kreinik@.len(),
{
    let mut threads: Vec<ThreadColor> = Vec::new();
    extend_with(&mut threads, &library.dmc);
    extend_with(&mut threads, &library.anchor);
    extend_with(&mut threads, &library.kreinik);
    assert(threads@ =~= library.all());
    threads
}

/// Thread library metadata.
pub struct ThreadLibraryInfo {
    pub brand: ThreadBrand,
    pub name: String,
    pub description: String,
    pub color_count: usize,
}

/// The name under which a brand's library is listed.
pub open spec fn library_name(brand: ThreadBrand) -> Seq<char> {
    match brand {
        ThreadBrand::DMC => "DMC"@,
        ThreadBrand::Anchor => "Anchor Stranded"@,
        ThreadBrand::Kreinik => "Kreinik Metallics"@,
    }
}

/// What is said of a brand's library.
pub open spec fn library_description(brand: ThreadBrand) -> Seq<char> {
    match brand {
        ThreadBrand::DMC => "DMC Cotton Embroidery Floss - Industry standard"@,
        ThreadBrand::Anchor => "Anchor Stranded Cotton - Popular alternative"@,
        ThreadBrand::Kreinik => "Kreinik Metallic Threads - Premium metallics"@,
    }
}

/// `info` describes the library of `brand` as held in `library`.
pub open spec fn describes(info: ThreadLibraryInfo, library: ThreadLibrary, brand: ThreadBrand) -> bool {
    &&& info.brand == brand
    &&& info.name@ == library_name(brand)
    &&& info.description@ == library_description(brand)
    &&& info.color_count == library.card(brand).len()
}

/// Get available thread libraries: DMC, Anchor and Kreinik, in that order,
/// each with the number of colours on its card.
pub fn get_thread_libraries(library: &ThreadLibrary) -> (libraries: Vec<ThreadLibraryInfo>)
    ensures
        libraries@.len() == 3,
        describes(libraries@[0], *library, ThreadBrand::DMC),
        describes(libraries@[1], *library, ThreadBrand::Anchor),
        describes(libraries@[2], *library, ThreadBrand::Kreinik),
{
    let mut libraries: Vec<ThreadLibraryInfo> = Vec::new();
    libraries.push(
        ThreadLibraryInfo {
            brand: ThreadBrand::DMC,
            name: String::from_str("DMC"),
            description: String::from_str("DMC Cotton Embroidery Floss - Industry standard"),
            color_count: library.dmc.len(),
        },
    );
    libraries.push(
        ThreadLibraryInfo {
            brand: ThreadBrand::Anchor,
            name: String::from_str("Anchor Stranded"),
            description: String::from_str("Anchor Stranded Cotton - Popular alternative"),
            color_count: library.anchor.len(),
        },
    );
    libraries.push(
        ThreadLibraryInfo {
            brand: ThreadBrand::Kreinik,
            name: String::from_str("Kreinik Metallics"),
            description: String::from_str("Kreinik Metallic Threads - Premium metallics"),
            color_count: library.kreinik.len(),
        },
    );
    libraries
}

/// The cards of a library as one catalog to match against, in the order of
/// `get_all_threads`.
pub fn catalog_of(threads: &Vec<ThreadColor>) -> (catalog: Vec<CatalogEntry>)
    ensures
        catalog@.len() == threads@.len(),
        forall|i: int|
            0 <= i < threads@.len() ==> {
                &&& (#[trigger] catalog@[i]).id@ == threads@[i].catalog_id()
                &&& catalog@[i].rgb == threads@[i].rgb
                &&& catalog@[i].name@ == threads@[i].name@
            },
{
    let mut catalog: Vec<CatalogEntry> = Vec::with_capacity(threads.len());
    let mut i: usize = 0;
    while i < threads.len()
        invariant
            i <= threads.len(),
            catalog@.len() == i,
            forall|k: int|
                0 <= k < i ==> {
                    &&& (#[trigger] catalog@[k]).id@ == threads@[k].catalog_id()
                    &&& catalog@[k].rgb == threads@[k].rgb
                    &&& catalog@[k].name@ == threads@[k].name@
                },
        decreases threads.len() - i,
    {
        catalog.push(threads[i].catalog_entry());
        i += 1;
    }
    catalog
}

} // verus!
