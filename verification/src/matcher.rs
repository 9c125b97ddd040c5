//! Mapping a palette onto a reference catalog.
//!
//! Each palette entry that is not transparent goes to the catalog colour with
//! the smallest ranking key, the first of those ranked equal.  Entries that go
//! to the same catalog colour share one pattern colour.

use vstd::prelude::*;
use vstd::set_lib::{lemma_int_range, lemma_len_subset, set_int_range};

use crate::pattern::{CatalogLink, ColorPlan, PatternColor};
use crate::raster::{color_of, is_transparent, pixel_is_transparent, rgb_of, Rgba};
use crate::text::{decimal, decimal_string, lemma_decimal_not_empty};
use crate::threads::color_matching::{
    distance_keys, first_minimum, first_minimum_index, is_rank_row, ranks_in_rgb, CatalogEntry,
    ColorMatchAlgorithm,
};

verus! {

/// The catalog colour that a palette entry goes to: that with the first
/// smallest key of the entry's row.  None for a transparent entry, and none
/// when there is no catalog colour at all.
pub open spec fn choice(entry: Rgba, row: Seq<u64>) -> Option<int> {
    if is_transparent(entry) || row.len() == 0 {
        None
    } else {
        Some(first_minimum_index(row))
    }
}

/// The choice of each palette entry, where `table[i]` ranks the catalog
/// against entry `i`.
pub open spec fn choices(palette: Seq<Rgba>, table: Seq<Seq<u64>>) -> Seq<Option<int>> {
    Seq::new(palette.len(), |i: int| choice(palette[i], table[i]))
}

/// The identifier of each catalog colour.
pub open spec fn catalog_ids(catalog: Seq<CatalogEntry>) -> Seq<Seq<char>> {
    Seq::new(catalog.len(), |j: int| catalog[j].id@)
}

/// Whether one of the catalog colours `picked` has the identifier `id`.
pub open spec fn lists_id(picked: Seq<int>, ids: Seq<Seq<char>>, id: Seq<char>) -> bool {
    exists|k: int| 0 <= k < picked.len() && ids[#[trigger] picked[k]] == id
}

/// The catalog colours chosen, in the order in which they are first chosen.
/// A colour whose identifier was chosen before is not listed again.
pub open spec fn distinct(chosen: Seq<Option<int>>, ids: Seq<Seq<char>>) -> Seq<int>
    decreases chosen.len(),
{
    if chosen.len() == 0 {
        Seq::empty()
    } else {
        let rest = distinct(chosen.drop_last(), ids);
        match chosen.last() {
            Some(c) => if lists_id(rest, ids, ids[c]) {
                rest
            } else {
                rest.push(c)
            },
            None => rest,
        }
    }
}

/// The identifier of pattern colour number `number` matched to a catalog
/// colour.
pub open spec fn matched_id(catalog_id: Seq<char>, number: nat) -> Seq<char> {
    catalog_id + "-color-"@ + decimal(number)
}

/// `color` is the catalog colour `entry` as pattern colour number `number`.
pub open spec fn is_matched_color(color: PatternColor, entry: CatalogEntry, number: nat) -> bool {
    &&& color.id@ == matched_id(entry.id@, number)
    &&& color.rgb == entry.rgb
    &&& color.catalog matches Some(link)
    &&& link.id@ == entry.id@
    &&& link.name@ == entry.name@
}

/// Every catalog colour picked exists.
pub open spec fn picks_in_range(picked: Seq<int>, catalog_len: nat) -> bool {
    forall|k: int| 0 <= k < picked.len() ==> 0 <= #[trigger] picked[k] < catalog_len
}

/// The pattern colours are the catalog colours picked, in order and numbered
/// from one.
pub open spec fn colors_follow(colors: Seq<PatternColor>, picked: Seq<int>, catalog: Seq<CatalogEntry>) -> bool {
    &&& colors.len() == picked.len()
    &&& forall|k: int|
        0 <= k < picked.len() ==> is_matched_color(#[trigger] colors[k], catalog[picked[k]], (k + 1) as nat)
}

/// Palette entry `i` maps to the pattern colour that carries the identifier
/// of its choice, or to none where it has no choice.
pub open spec fn maps_to_choice(
    assigned: Option<usize>,
    choice: Option<int>,
    picked: Seq<int>,
    ids: Seq<Seq<char>>,
) -> bool {
    match choice {
        Some(c) => assigned matches Some(k) && k < picked.len() && ids[picked[k as int]] == ids[c],
        None => assigned is None,
    }
}

/// `plan` is the outcome of matching: its colours are the catalog colours
/// chosen, one for each identifier, in order of first choice and numbered
/// from one; each palette entry with a choice maps to the colour that
/// carries the identifier of that choice, and each without to none.
pub open spec fn is_matching(plan: ColorPlan, chosen: Seq<Option<int>>, catalog: Seq<CatalogEntry>) -> bool {
    let picked = distinct(chosen, catalog_ids(catalog));
    &&& picks_in_range(picked, catalog.len())
    &&& colors_follow(plan.colors@, picked, catalog)
    &&& plan.assignment@.len() == chosen.len()
    &&& forall|i: int|
        0 <= i < chosen.len() ==> maps_to_choice(
            #[trigger] plan.assignment@[i],
            chosen[i],
            picked,
            catalog_ids(catalog),
        )
}

/// The table ranks every catalog colour against every palette entry.
pub open spec fn table_fits(table: Seq<Vec<u64>>, entries: nat, catalog_len: nat) -> bool {
    &&& table.len() == entries
    &&& forall|i: int| 0 <= i < entries ==> (#[trigger] table[i])@.len() == catalog_len
}

/// Whether a table has a row for each of `entries` palette entries and in
/// each row a key for each of `catalog_len` catalog colours.
pub fn has_shape(table: &Vec<Vec<u64>>, entries: usize, catalog_len: usize) -> (fits: bool)
    ensures
        fits == table_fits(table@, entries as nat, catalog_len as nat),
{
    if table.len() != entries {
        return false;
    }
    let mut i: usize = 0;
    while i < table.len()
        invariant
            i <= table.len(),
            table@.len() == entries,
            forall|k: int| 0 <= k < i ==> (#[trigger] table@[k])@.len() == catalog_len,
        decreases table.len() - i,
    {
        if table[i].len() != catalog_len {
            return false;
        }
        i += 1;
    }
    true
}

/// The rows of a table, as sequences.
pub open spec fn rows_of(table: Seq<Vec<u64>>) -> Seq<Seq<u64>> {
    Seq::new(table.len(), |i: int| table[i]@)
}

/// The catalog colours picked so far, as numbers.
pub open spec fn as_ints(used: Seq<usize>) -> Seq<int> {
    used.map_values(|c: usize| c as int)
}

fn position_of(used: &Vec<usize>, catalog: &Vec<CatalogEntry>, target: usize) -> (found: Option<usize>)
    requires
        target < catalog@.len(),
        forall|k: int| 0 <= k < used@.len() ==> #[trigger] used@[k] < catalog@.len(),
    ensures
        found matches Some(k) ==> k < used@.len() && catalog@[used@[k as int] as int].id@
            == catalog@[target as int].id@,
        found is None ==> !lists_id(as_ints(used@), catalog_ids(catalog@), catalog@[target as int].id@),
{
    let mut k: usize = 0;
    while k < used.len()
        invariant
            k <= used.len(),
            target < catalog@.len(),
            forall|j: int| 0 <= j < used@.len() ==> #[trigger] used@[j] < catalog@.len(),
            forall|j: int|
                0 <= j < k ==> catalog@[#[trigger] used@[j] as int].id@ != catalog@[target as int].id@,
        decreases used.len() - k,
    {
        if catalog[used[k]].id == catalog[target].id {
            return Some(k);
        }
        k += 1;
    }
    proof {
        let picked = as_ints(used@);
        let ids = catalog_ids(catalog@);
        if lists_id(picked, ids, catalog@[target as int].id@) {
            let j = choose|j: int| 0 <= j < picked.len() && ids[#[trigger] picked[j]] == catalog@[target as int].id@;
            assert(picked[j] == used@[j] as int);
        }
    }
    None
}

/// Maps each palette entry to its nearest catalog colour, where
/// `table[i][j]` ranks catalog colour `j` against palette entry `i`, and
/// merges the entries that go to the same catalog identifier.
pub fn match_palette(palette: &Vec<Rgba>, catalog: &Vec<CatalogEntry>, table: &Vec<Vec<u64>>) -> (plan: ColorPlan)
    requires
        table_fits(table@, palette@.len(), catalog@.len()),
    ensures
        is_matching(plan, choices(palette@, rows_of(table@)), catalog@),
        plan.wf(palette@.len()),
        plan.named(),
        catalog@.len() > 0 ==> plan.covers(palette@),
        plan.colors@.len() <= palette@.len(),
        plan.colors@.len() <= catalog@.len(),
{
    let ghost chosen = choices(palette@, rows_of(table@));
    let ghost ids = catalog_ids(catalog@);
    let mut colors: Vec<PatternColor> = Vec::new();
    let mut assignment: Vec<Option<usize>> = Vec::with_capacity(palette.len());
    let mut used: Vec<usize> = Vec::new();
    let mut i: usize = 0;
    while i < palette.len()
        invariant
            table_fits(table@, palette@.len(), catalog@.len()),
            chosen == choices(palette@, rows_of(table@)),
            ids == catalog_ids(catalog@),
            i <= palette.len(),
            assignment@.len() == i,
            used@.len() <= i,
            as_ints(used@) == distinct(chosen.take(i as int), ids),
            forall|k: int| 0 <= k < used@.len() ==> #[trigger] used@[k] < catalog@.len(),
            colors_follow(colors@, as_ints(used@), catalog@),
            forall|k: int| 0 <= k < colors@.len() ==> (#[trigger] colors@[k]).id@.len() > 0,
            forall|j: int|
                0 <= j < i ==> maps_to_choice(#[trigger] assignment@[j], chosen[j], as_ints(used@), ids),
        decreases palette.len() - i,
    {
        let ghost before = as_ints(used@);
        proof {
            assert(chosen.take(i + 1).drop_last() =~= chosen.take(i as int));
            assert(chosen.take(i + 1).last() == chosen[i as int]);
            assert(rows_of(table@)[i as int] == table@[i as int]@);
        }
        let entry = palette[i];
        let pick = if pixel_is_transparent(&entry) {
            None
        } else {
            first_minimum(&table[i])
        };
        assert(match pick {
            Some(c) => chosen[i as int] == Some(c as int),
            None => chosen[i as int] is None,
        });
        match pick {
            None => {
                assignment.push(None);
            },
            Some(c) => {
                assert(ids[c as int] == catalog@[c as int].id@);
                match position_of(&used, catalog, c) {
                    Some(k) => {
                        proof {
                            assert(before[k as int] == used@[k as int] as int);
                            assert(ids[before[k as int]] == ids[c as int]);
                            assert(lists_id(before, ids, ids[c as int]));
                        }
                        assignment.push(Some(k));
                    },
                    None => {
                        let source = &catalog[c];
                        proof {
                            lemma_decimal_not_empty((colors@.len() + 1) as nat);
                        }
                        let number = decimal_string(colors.len() + 1);
                        let id = source.id.clone().concat("-color-").concat(number.as_str());
                        let link = CatalogLink { id: source.id.clone(), name: source.name.clone() };
                        colors.push(PatternColor { id, rgb: source.rgb, catalog: Some(link) });
                        assignment.push(Some(used.len()));
                        used.push(c);
                        proof {
                            let after = as_ints(used@);
                            assert(after =~= before.push(c as int));
                            assert forall|k: int| 0 <= k < after.len() implies is_matched_color(
                                #[trigger] colors@[k],
                                catalog@[after[k]],
                                (k + 1) as nat,
                            ) by {
                                if k < before.len() {
                                    assert(after[k] == before[k]);
                                }
                            }
                            assert forall|j: int| 0 <= j < i implies maps_to_choice(
                                #[trigger] assignment@[j],
                                chosen[j],
                                after,
                                ids,
                            ) by {
                                match chosen[j] {
                                    Some(cj) => {
                                        let kj = assignment@[j]->Some_0 as int;
                                        assert(after[kj] == before[kj]);
                                    },
                                    None => {},
                                }
                            }
                            assert(after[before.len() as int] == c as int);
                        }
                    },
                }
            },
        }
        i += 1;
    }
    proof {
        assert(chosen.take(palette.len() as int) =~= chosen);
        let picked = as_ints(used@);
        assert forall|k: int| 0 <= k < picked.len() implies 0 <= #[trigger] picked[k] < catalog@.len() by {
            assert(picked[k] == used@[k] as int);
        }
    }
    let plan = ColorPlan { colors, assignment };
    proof {
        law_matching_adds_no_color(plan, chosen, catalog@);
    }
    plan
}

/// `table` ranks the catalog against each palette entry by `algorithm`.
pub open spec fn is_rank_table(
    table: Seq<Vec<u64>>,
    palette: Seq<Rgba>,
    cards: Seq<CatalogEntry>,
    algorithm: ColorMatchAlgorithm,
) -> bool {
    &&& table_fits(table, palette.len(), cards.len())
    &&& forall|i: int|
        0 <= i < palette.len() ==> is_rank_row((#[trigger] table[i])@, color_of(palette[i]), cards, algorithm)
}

/// Ranks the catalog against every palette entry, for the algorithms that
/// measure in RGB space; `None` for the others.
pub fn rank_table(
    palette: &Vec<Rgba>,
    catalog: &Vec<CatalogEntry>,
    algorithm: ColorMatchAlgorithm,
) -> (table: Option<Vec<Vec<u64>>>)
    ensures
        table is Some <==> ranks_in_rgb(algorithm),
        table matches Some(t) ==> is_rank_table(t@, palette@, catalog@, algorithm),
{
    match algorithm {
        ColorMatchAlgorithm::Euclidean | ColorMatchAlgorithm::Weighted => {},
        _ => {
            return None;
        },
    }
    let mut table: Vec<Vec<u64>> = Vec::with_capacity(palette.len());
    let mut i: usize = 0;
    while i < palette.len()
        invariant
            ranks_in_rgb(algorithm),
            i <= palette.len(),
            table@.len() == i,
            forall|k: int| 0 <= k < i ==> (#[trigger] table@[k])@.len() == catalog@.len(),
            forall|k: int|
                0 <= k < i ==> is_rank_row(
                    (#[trigger] table@[k])@,
                    color_of(palette@[k]),
                    catalog@,
                    algorithm,
                ),
        decreases palette.len() - i,
    {
        let target = rgb_of(&palette[i]);
        match distance_keys(target, catalog, algorithm) {
            Some(row) => {
                table.push(row);
            },
            None => {
                return None;
            },
        }
        i += 1;
    }
    Some(table)
}

// ---------------------------------------------------------------------------
// What holds of a matching
// ---------------------------------------------------------------------------

/// Some palette entry chose the catalog colour `c`.
pub open spec fn was_chosen(chosen: Seq<Option<int>>, c: int) -> bool {
    exists|i: int| 0 <= i < chosen.len() && #[trigger] chosen[i] == Some(c)
}

/// Whatever is chosen has its identifier listed, and every colour listed was
/// chosen.
pub proof fn lemma_distinct_members(chosen: Seq<Option<int>>, ids: Seq<Seq<char>>)
    ensures
        forall|i: int|
            0 <= i < chosen.len() && (#[trigger] chosen[i]) is Some ==> lists_id(
                distinct(chosen, ids),
                ids,
                ids[chosen[i]->Some_0],
            ),
        forall|k: int|
            0 <= k < distinct(chosen, ids).len() ==> was_chosen(chosen, #[trigger] distinct(chosen, ids)[k]),
    decreases chosen.len(),
{
    if chosen.len() > 0 {
        let front = chosen.drop_last();
        let rest = distinct(front, ids);
        let all = distinct(chosen, ids);
        lemma_distinct_members(front, ids);
        assert forall|k: int| 0 <= k < rest.len() implies all[k] == rest[k] by {}
        assert forall|i: int| 0 <= i < chosen.len() && (#[trigger] chosen[i]) is Some implies lists_id(
            all,
            ids,
            ids[chosen[i]->Some_0],
        ) by {
            let c = chosen[i]->Some_0;
            if i < front.len() {
                assert(front[i] == chosen[i]);
                assert(lists_id(rest, ids, ids[c]));
                let k = choose|k: int| 0 <= k < rest.len() && ids[#[trigger] rest[k]] == ids[c];
                assert(all[k] == rest[k]);
            } else if lists_id(rest, ids, ids[c]) {
            } else {
                assert(all[rest.len() as int] == c);
            }
        }
        assert forall|k: int| 0 <= k < all.len() implies was_chosen(chosen, #[trigger] all[k]) by {
            if k < rest.len() {
                assert(was_chosen(front, rest[k]));
                let i = choose|i: int| 0 <= i < front.len() && #[trigger] front[i] == Some(rest[k]);
                assert(chosen[i] == Some(all[k]));
            } else {
                assert(chosen[chosen.len() - 1] == Some(all[k]));
            }
        }
    }
}

/// No identifier is listed twice.
pub proof fn lemma_distinct_once(chosen: Seq<Option<int>>, ids: Seq<Seq<char>>, k1: int, k2: int)
    requires
        0 <= k1 < distinct(chosen, ids).len(),
        0 <= k2 < distinct(chosen, ids).len(),
        ids[distinct(chosen, ids)[k1]] == ids[distinct(chosen, ids)[k2]],
    ensures
        k1 == k2,
    decreases chosen.len(),
{
    if chosen.len() > 0 {
        let rest = distinct(chosen.drop_last(), ids);
        if distinct(chosen, ids) == rest {
            lemma_distinct_once(chosen.drop_last(), ids, k1, k2);
        } else {
            let c = chosen.last()->Some_0;
            if k1 < rest.len() && k2 < rest.len() {
                lemma_distinct_once(chosen.drop_last(), ids, k1, k2);
            } else if k1 < rest.len() {
                assert(ids[rest[k1]] == ids[c]);
            } else if k2 < rest.len() {
                assert(ids[rest[k2]] == ids[c]);
            }
        }
    }
}

/// Palette entries that go to the same catalog identifier share one pattern
/// colour, and entries that go to different identifiers do not.
pub proof fn law_same_choice_same_color(
    plan: ColorPlan,
    chosen: Seq<Option<int>>,
    catalog: Seq<CatalogEntry>,
    i: int,
    j: int,
)
    requires
        is_matching(plan, chosen, catalog),
        0 <= i < chosen.len(),
        0 <= j < chosen.len(),
        chosen[i] matches Some(ci) && 0 <= ci < catalog.len(),
        chosen[j] matches Some(cj) && 0 <= cj < catalog.len(),
    ensures
        catalog[chosen[i]->Some_0].id@ == catalog[chosen[j]->Some_0].id@ <==> plan.assignment@[i]
            == plan.assignment@[j],
{
    let ids = catalog_ids(catalog);
    let picked = distinct(chosen, ids);
    assert(maps_to_choice(plan.assignment@[i], chosen[i], picked, ids));
    assert(maps_to_choice(plan.assignment@[j], chosen[j], picked, ids));
    let ki = plan.assignment@[i]->Some_0 as int;
    let kj = plan.assignment@[j]->Some_0 as int;
    if ids[chosen[i]->Some_0] == ids[chosen[j]->Some_0] {
        lemma_distinct_once(chosen, ids, ki, kj);
    }
}

/// No more colours are listed than choices are made.
pub proof fn lemma_distinct_len(chosen: Seq<Option<int>>, ids: Seq<Seq<char>>)
    ensures
        distinct(chosen, ids).len() <= chosen.len(),
    decreases chosen.len(),
{
    if chosen.len() > 0 {
        lemma_distinct_len(chosen.drop_last(), ids);
    }
}

/// Matching merges colours and never adds one: a matching lists no more
/// colours than the palette has entries, and no more than the catalog has
/// colours.
pub proof fn law_matching_adds_no_color(plan: ColorPlan, chosen: Seq<Option<int>>, catalog: Seq<CatalogEntry>)
    requires
        is_matching(plan, chosen, catalog),
    ensures
        plan.colors@.len() <= chosen.len(),
        plan.colors@.len() <= catalog.len(),
{
    let ids = catalog_ids(catalog);
    let picked = distinct(chosen, ids);
    lemma_distinct_len(chosen, ids);
    assert forall|k1: int, k2: int|
        0 <= k1 < picked.len() && 0 <= k2 < picked.len() && k1 != k2 implies picked[k1] != picked[k2] by {
        if picked[k1] == picked[k2] {
            lemma_distinct_once(chosen, ids, k1, k2);
        }
    }
    assert(picked.no_duplicates());
    picked.unique_seq_to_set();
    let range = set_int_range(0, catalog.len() as int);
    lemma_int_range(0, catalog.len() as int);
    assert forall|c: int| picked.to_set().contains(c) implies range.contains(c) by {
        let k = choose|k: int| 0 <= k < picked.len() && picked[k] == c;
        assert(0 <= picked[k] < catalog.len());
    }
    lemma_len_subset(picked.to_set(), range);
}

/// Some palette entry maps to colour `k`.
pub open spec fn is_used(assignment: Seq<Option<usize>>, k: int) -> bool {
    exists|i: int| 0 <= i < assignment.len() && #[trigger] assignment[i] == Some(k as usize)
}

/// The pattern colours of a matching carry pairwise different catalog
/// identifiers, and each of them is used: a catalog colour chosen by several
/// palette entries is listed once, and one chosen by none is not listed.
pub proof fn law_colors_listed_once(plan: ColorPlan, chosen: Seq<Option<int>>, catalog: Seq<CatalogEntry>)
    requires
        is_matching(plan, chosen, catalog),
    ensures
        forall|k1: int, k2: int|
            0 <= k1 < plan.colors@.len() && 0 <= k2 < plan.colors@.len() && k1 != k2 ==> (
            #[trigger] plan.colors@[k1]).catalog->Some_0.id@ != (#[trigger] plan.colors@[k2]).catalog->Some_0.id@,
        forall|k: int| 0 <= k < plan.colors@.len() ==> #[trigger] is_used(plan.assignment@, k),
{
    let ids = catalog_ids(catalog);
    let picked = distinct(chosen, ids);
    assert forall|k1: int, k2: int|
        0 <= k1 < plan.colors@.len() && 0 <= k2 < plan.colors@.len() && k1 != k2 implies (
    #[trigger] plan.colors@[k1]).catalog->Some_0.id@ != (#[trigger] plan.colors@[k2]).catalog->Some_0.id@ by {
        assert(0 <= picked[k1] < catalog.len());
        assert(0 <= picked[k2] < catalog.len());
        if ids[picked[k1]] == ids[picked[k2]] {
            lemma_distinct_once(chosen, ids, k1, k2);
        }
    }
    lemma_distinct_members(chosen, ids);
    assert forall|k: int| 0 <= k < plan.colors@.len() implies #[trigger] is_used(plan.assignment@, k) by {
        assert(was_chosen(chosen, picked[k]));
        let i = choose|i: int| 0 <= i < chosen.len() && #[trigger] chosen[i] == Some(picked[k]);
        assert(maps_to_choice(plan.assignment@[i], chosen[i], picked, ids));
        let at = plan.assignment@[i]->Some_0 as int;
        lemma_distinct_once(chosen, ids, at, k);
        assert(plan.assignment@[i] == Some(k as usize));
    }
}

} // verus!
