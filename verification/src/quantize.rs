//! Median-cut colour quantization.
//!
//! The pixels start in one bucket.  While there are fewer buckets than colours
//! asked for, the bucket and channel with the largest spread of samples is
//! found, that bucket is sorted along that channel and cut in two at its
//! midpoint.  Each bucket left at the end contributes the mean of its pixels.

use vstd::prelude::*;

use crate::raster::{same_rgb, Rgba};

verus! {

// ---------------------------------------------------------------------------
// Sorting a bucket along one channel
// ---------------------------------------------------------------------------

/// The pixels of `s` whose sample in channel `ch` is `v`, in their order in `s`.
pub open spec fn with_value(s: Seq<Rgba>, ch: int, v: int) -> Seq<Rgba>
    decreases s.len(),
{
    if s.len() == 0 {
        Seq::empty()
    } else if s.last()[ch] == v {
        with_value(s.drop_last(), ch, v).push(s.last())
    } else {
        with_value(s.drop_last(), ch, v)
    }
}

/// The pixels of `s` whose sample in channel `ch` lies below `bound`, by
/// ascending sample, pixels with equal samples in their order in `s`.
pub open spec fn sorted_below(s: Seq<Rgba>, ch: int, bound: int) -> Seq<Rgba>
    decreases bound,
{
    if bound <= 0 {
        Seq::empty()
    } else {
        sorted_below(s, ch, bound - 1) + with_value(s, ch, bound - 1)
    }
}

/// `s` in ascending order of channel `ch`; pixels that agree on that channel
/// keep their order (the sort is stable).
pub open spec fn sort_by_channel(s: Seq<Rgba>, ch: int) -> Seq<Rgba> {
    sorted_below(s, ch, 256)
}

/// How many pixels of `s` have a sample below `bound` in channel `ch`.
pub open spec fn count_below(s: Seq<Rgba>, ch: int, bound: int) -> nat
    decreases s.len(),
{
    if s.len() == 0 {
        0
    } else if s.last()[ch] < bound {
        count_below(s.drop_last(), ch, bound) + 1
    } else {
        count_below(s.drop_last(), ch, bound)
    }
}

/// The pixels with one sample value are those counted below the next value and not below this one.
pub proof fn lemma_with_value_len(s: Seq<Rgba>, ch: int, v: int)
    ensures
        with_value(s, ch, v).len() + count_below(s, ch, v) == count_below(s, ch, v + 1),
        with_value(s, ch, v).len() <= s.len(),
    decreases s.len(),
{
    if s.len() > 0 {
        lemma_with_value_len(s.drop_last(), ch, v);
    }
}

/// No pixel has a sample below 0, and every pixel has one below 256.
pub proof fn lemma_count_below_bounds(s: Seq<Rgba>, ch: int, bound: int)
    requires
        0 <= ch < 4,
    ensures
        count_below(s, ch, bound) <= s.len(),
        bound <= 0 ==> count_below(s, ch, bound) == 0,
        bound >= 256 ==> count_below(s, ch, bound) == s.len(),
    decreases s.len(),
{
    if s.len() > 0 {
        lemma_count_below_bounds(s.drop_last(), ch, bound);
    }
}

/// What is sorted below a bound are the pixels counted below it.
pub proof fn lemma_sorted_below_len(s: Seq<Rgba>, ch: int, bound: int)
    requires
        0 <= ch < 4,
    ensures
        sorted_below(s, ch, bound).len() == count_below(s, ch, bound),
    decreases bound,
{
    if bound <= 0 {
        lemma_count_below_bounds(s, ch, bound);
    } else {
        lemma_sorted_below_len(s, ch, bound - 1);
        lemma_with_value_len(s, ch, bound - 1);
    }
}

/// Sorting keeps the number of pixels.
pub proof fn lemma_sort_len(s: Seq<Rgba>, ch: int)
    requires
        0 <= ch < 4,
    ensures
        sort_by_channel(s, ch).len() == s.len(),
{
    lemma_sorted_below_len(s, ch, 256);
    lemma_count_below_bounds(s, ch, 256);
}

/// The pixels picked by a sample value have that value.
pub proof fn lemma_with_value_samples(s: Seq<Rgba>, ch: int, v: int)
    requires
        0 <= ch < 4,
    ensures
        forall|i: int| 0 <= i < with_value(s, ch, v).len() ==> (#[trigger] with_value(s, ch, v)[i])[ch] == v,
    decreases s.len(),
{
    if s.len() > 0 {
        let rest = with_value(s.drop_last(), ch, v);
        lemma_with_value_samples(s.drop_last(), ch, v);
        assert forall|i: int| 0 <= i < with_value(s, ch, v).len() implies (#[trigger] with_value(s, ch, v)[i])[ch]
            == v by {
            if i < rest.len() {
                assert(with_value(s, ch, v)[i] == rest[i]);
            }
        }
    }
}

/// What is sorted ascends along the channel.
pub proof fn lemma_sorted_below_ascends(s: Seq<Rgba>, ch: int, bound: int)
    requires
        0 <= ch < 4,
    ensures
        forall|i: int|
            0 <= i < sorted_below(s, ch, bound).len() ==> (#[trigger] sorted_below(s, ch, bound)[i])[ch]
                < bound,
        forall|i: int, j: int|
            0 <= i <= j < sorted_below(s, ch, bound).len() ==> (#[trigger] sorted_below(s, ch, bound)[i])[ch]
                <= (#[trigger] sorted_below(s, ch, bound)[j])[ch],
    decreases bound,
{
    if bound > 0 {
        let low = sorted_below(s, ch, bound - 1);
        let top = with_value(s, ch, bound - 1);
        let all = sorted_below(s, ch, bound);
        lemma_sorted_below_ascends(s, ch, bound - 1);
        lemma_with_value_samples(s, ch, bound - 1);
        assert forall|i: int| 0 <= i < all.len() implies (#[trigger] all[i])[ch] < bound && (i < low.len()
            ==> all[i] == low[i]) && (i >= low.len() ==> all[i][ch] == bound - 1) by {
            if i < low.len() {
                assert(all[i] == low[i]);
            } else {
                assert(all[i] == top[i - low.len()]);
            }
        }
        assert forall|i: int, j: int| 0 <= i <= j < all.len() implies (#[trigger] all[i])[ch] <= (
        #[trigger] all[j])[ch] by {
            if j < low.len() {
                assert(all[i] == low[i]);
                assert(all[j] == low[j]);
            } else if i < low.len() {
                assert(all[i] == low[i]);
                assert(all[j] == top[j - low.len()]);
            } else {
                assert(all[i] == top[i - low.len()]);
                assert(all[j] == top[j - low.len()]);
            }
        }
    }
}

/// Picking by sample value goes through a join of two runs of pixels.
pub proof fn lemma_with_value_concat(a: Seq<Rgba>, b: Seq<Rgba>, ch: int, v: int)
    ensures
        with_value(a + b, ch, v) == with_value(a, ch, v) + with_value(b, ch, v),
    decreases b.len(),
{
    if b.len() == 0 {
        assert(a + b =~= a);
        assert(with_value(a, ch, v) + with_value(b, ch, v) =~= with_value(a, ch, v));
    } else {
        assert((a + b).drop_last() =~= a + b.drop_last());
        assert((a + b).last() == b.last());
        lemma_with_value_concat(a, b.drop_last(), ch, v);
        let front = with_value(a, ch, v) + with_value(b.drop_last(), ch, v);
        if b.last()[ch] == v {
            assert(front.push(b.last()) =~= with_value(a, ch, v) + with_value(b, ch, v));
        }
    }
}

/// Picking twice by the same sample value changes nothing more, and picking
/// by another value leaves nothing.
pub proof fn lemma_with_value_twice(s: Seq<Rgba>, ch: int, u: int, v: int)
    ensures
        with_value(with_value(s, ch, u), ch, v) == if u == v {
            with_value(s, ch, u)
        } else {
            Seq::<Rgba>::empty()
        },
    decreases s.len(),
{
    if s.len() > 0 {
        let rest = with_value(s.drop_last(), ch, u);
        lemma_with_value_twice(s.drop_last(), ch, u, v);
        if s.last()[ch] == u {
            assert(rest.push(s.last()).drop_last() =~= rest);
        }
    }
}

/// Among what is sorted below a bound, the pixels with one sample value are
/// those of the bucket with that value, in their order in the bucket.
pub proof fn lemma_sorted_below_value(s: Seq<Rgba>, ch: int, bound: int, v: int)
    requires
        0 <= v,
    ensures
        with_value(sorted_below(s, ch, bound), ch, v) == if v < bound {
            with_value(s, ch, v)
        } else {
            Seq::<Rgba>::empty()
        },
    decreases bound,
{
    if bound > 0 {
        let low = sorted_below(s, ch, bound - 1);
        let top = with_value(s, ch, bound - 1);
        lemma_sorted_below_value(s, ch, bound - 1, v);
        lemma_with_value_concat(low, top, ch, v);
        lemma_with_value_twice(s, ch, bound - 1, v);
        if v < bound - 1 {
            assert(with_value(s, ch, v) + Seq::<Rgba>::empty() =~= with_value(s, ch, v));
        } else if v == bound - 1 {
            assert(Seq::<Rgba>::empty() + with_value(s, ch, v) =~= with_value(s, ch, v));
        } else {
            assert(Seq::<Rgba>::empty() + Seq::<Rgba>::empty() =~= Seq::<Rgba>::empty());
        }
    }
}

/// Sorting is stable: the pixels that agree on the channel are the same, in
/// the same order, before and after.
pub proof fn law_sort_stable(s: Seq<Rgba>, ch: int, v: int)
    requires
        0 <= v < 256,
    ensures
        with_value(sort_by_channel(s, ch), ch, v) == with_value(s, ch, v),
{
    lemma_sorted_below_value(s, ch, 256, v);
}

/// A sorted bucket ascends along the channel it was sorted by.
pub proof fn law_sort_ascends(s: Seq<Rgba>, ch: int, i: int, j: int)
    requires
        0 <= ch < 4,
        0 <= i <= j < sort_by_channel(s, ch).len(),
    ensures
        sort_by_channel(s, ch)[i][ch] <= sort_by_channel(s, ch)[j][ch],
{
    lemma_sorted_below_ascends(s, ch, 256);
}

/// Sorts a bucket along one channel, stably: the pixels are dealt into one
/// bin for each value of the sample, and the bins are read out in order.
pub fn sort_bucket(bucket: &Vec<Rgba>, ch: usize) -> (sorted: Vec<Rgba>)
    requires
        ch < 4,
    ensures
        sorted@ == sort_by_channel(bucket@, ch as int),
        sorted@.len() == bucket@.len(),
{
    let mut bins: Vec<Vec<Rgba>> = Vec::with_capacity(256);
    let mut v: usize = 0;
    while v < 256
        invariant
            v <= 256,
            bins@.len() == v,
            forall|k: int| 0 <= k < v ==> (#[trigger] bins@[k])@.len() == 0,
        decreases 256 - v,
    {
        bins.push(Vec::new());
        v += 1;
    }
    let mut i: usize = 0;
    while i < bucket.len()
        invariant
            ch < 4,
            i <= bucket.len(),
            bins@.len() == 256,
            forall|k: int|
                0 <= k < 256 ==> (#[trigger] bins@[k])@ == with_value(bucket@.take(i as int), ch as int, k),
        decreases bucket.len() - i,
    {
        let pixel = bucket[i];
        let key = pixel[ch] as usize;
        proof {
            assert(bucket@.take(i + 1).drop_last() =~= bucket@.take(i as int));
            assert(bucket@.take(i + 1).last() == pixel);
        }
        bins[key].push(pixel);
        i += 1;
    }
    proof {
        assert(bucket@.take(bucket.len() as int) =~= bucket@);
    }
    let mut sorted: Vec<Rgba> = Vec::with_capacity(bucket.len());
    let mut v: usize = 0;
    while v < 256
        invariant
            ch < 4,
            v <= 256,
            bins@.len() == 256,
            forall|k: int| 0 <= k < 256 ==> (#[trigger] bins@[k])@ == with_value(bucket@, ch as int, k),
            sorted@ == sorted_below(bucket@, ch as int, v as int),
        decreases 256 - v,
    {
        let bin = &bins[v];
        let mut j: usize = 0;
        while j < bin.len()
            invariant
                j <= bin.len(),
                bin@ == with_value(bucket@, ch as int, v as int),
                sorted@ == sorted_below(bucket@, ch as int, v as int) + bin@.take(j as int),
            decreases bin.len() - j,
        {
            sorted.push(bin[j]);
            proof {
                assert(bin@.take(j + 1) =~= bin@.take(j as int).push(bin@[j as int]));
            }
            j += 1;
        }
        proof {
            assert(bin@.take(bin.len() as int) =~= bin@);
        }
        v += 1;
    }
    proof {
        lemma_sort_len(bucket@, ch as int);
    }
    sorted
}

// ---------------------------------------------------------------------------
// The spread of a bucket
// ---------------------------------------------------------------------------

/// The smallest sample of channel `ch` in `s` (255 for no pixels).
pub open spec fn channel_min(s: Seq<Rgba>, ch: int) -> int
    decreases s.len(),
{
    if s.len() == 0 {
        255
    } else {
        let rest = channel_min(s.drop_last(), ch);
        if s.last()[ch] < rest {
            s.last()[ch] as int
        } else {
            rest
        }
    }
}

/// The largest sample of channel `ch` in `s` (0 for no pixels).
pub open spec fn channel_max(s: Seq<Rgba>, ch: int) -> int
    decreases s.len(),
{
    if s.len() == 0 {
        0
    } else {
        let rest = channel_max(s.drop_last(), ch);
        if s.last()[ch] > rest {
            s.last()[ch] as int
        } else {
            rest
        }
    }
}

/// The spread of channel `ch` over `s`: largest sample minus smallest.
pub open spec fn channel_range(s: Seq<Rgba>, ch: int) -> int {
    if s.len() == 0 {
        0
    } else {
        channel_max(s, ch) - channel_min(s, ch)
    }
}

/// Every sample lies between the smallest and the largest, and both occur.
pub proof fn lemma_channel_bounds(s: Seq<Rgba>, ch: int)
    requires
        0 <= ch < 4,
    ensures
        0 <= channel_min(s, ch) <= 255,
        0 <= channel_max(s, ch) <= 255,
        forall|i: int| 0 <= i < s.len() ==> channel_min(s, ch) <= (#[trigger] s[i])[ch],
        forall|i: int| 0 <= i < s.len() ==> (#[trigger] s[i])[ch] <= channel_max(s, ch),
        s.len() > 0 ==> exists|i: int| 0 <= i < s.len() && (#[trigger] s[i])[ch] == channel_min(s, ch),
        s.len() > 0 ==> exists|i: int| 0 <= i < s.len() && (#[trigger] s[i])[ch] == channel_max(s, ch),
        s.len() > 0 ==> channel_min(s, ch) <= channel_max(s, ch),
    decreases s.len(),
{
    if s.len() > 0 {
        let rest = s.drop_last();
        lemma_channel_bounds(rest, ch);
        assert forall|i: int| 0 <= i < s.len() implies channel_min(s, ch) <= (#[trigger] s[i])[ch]
            && s[i][ch] <= channel_max(s, ch) by {
            if i < rest.len() {
                assert(rest[i] == s[i]);
            }
        }
        let last = s.len() - 1;
        if rest.len() == 0 {
            assert(s[last][ch] == channel_min(s, ch));
            assert(s[last][ch] == channel_max(s, ch));
        } else {
            let lo = choose|i: int| 0 <= i < rest.len() && (#[trigger] rest[i])[ch] == channel_min(rest, ch);
            let hi = choose|i: int| 0 <= i < rest.len() && (#[trigger] rest[i])[ch] == channel_max(rest, ch);
            assert(rest[lo] == s[lo]);
            assert(rest[hi] == s[hi]);
            if s.last()[ch] < channel_min(rest, ch) {
                assert(s[last][ch] == channel_min(s, ch));
            } else {
                assert(s[lo][ch] == channel_min(s, ch));
            }
            if s.last()[ch] > channel_max(rest, ch) {
                assert(s[last][ch] == channel_max(s, ch));
            } else {
                assert(s[hi][ch] == channel_max(s, ch));
            }
        }
    }
}

/// The spreads of the three colour channels of a bucket.
fn bucket_ranges(bucket: &Vec<Rgba>) -> (ranges: [u8; 3])
    ensures
        forall|ch: int| 0 <= ch < 3 ==> ranges[ch] == channel_range(bucket@, ch),
{
    if bucket.len() == 0 {
        return [0, 0, 0];
    }
    let mut lo: [u8; 3] = [255, 255, 255];
    let mut hi: [u8; 3] = [0, 0, 0];
    let mut i: usize = 0;
    while i < bucket.len()
        invariant
            i <= bucket.len(),
            forall|ch: int| 0 <= ch < 3 ==> lo[ch] == channel_min(bucket@.take(i as int), ch),
            forall|ch: int| 0 <= ch < 3 ==> hi[ch] == channel_max(bucket@.take(i as int), ch),
        decreases bucket.len() - i,
    {
        let pixel = bucket[i];
        proof {
            let before = bucket@.take(i as int);
            let after = bucket@.take(i + 1);
            assert(after.drop_last() =~= before);
            assert(after.last() == pixel);
        }
        let mut ch: usize = 0;
        while ch < 3
            invariant
                ch <= 3,
                i < bucket.len(),
                pixel == bucket@[i as int],
                bucket@.take(i + 1).drop_last() == bucket@.take(i as int),
                bucket@.take(i + 1).last() == pixel,
                forall|c: int| ch <= c < 3 ==> lo[c] == channel_min(bucket@.take(i as int), c),
                forall|c: int| ch <= c < 3 ==> hi[c] == channel_max(bucket@.take(i as int), c),
                forall|c: int| 0 <= c < ch ==> lo[c] == channel_min(bucket@.take(i + 1), c),
                forall|c: int| 0 <= c < ch ==> hi[c] == channel_max(bucket@.take(i + 1), c),
            decreases 3 - ch,
        {
            if pixel[ch] < lo[ch] {
                lo[ch] = pixel[ch];
            }
            if pixel[ch] > hi[ch] {
                hi[ch] = pixel[ch];
            }
            ch += 1;
        }
        i += 1;
    }
    proof {
        assert(bucket@.take(bucket.len() as int) =~= bucket@);
        lemma_channel_bounds(bucket@, 0);
        lemma_channel_bounds(bucket@, 1);
        lemma_channel_bounds(bucket@, 2);
    }
    [hi[0] - lo[0], hi[1] - lo[1], hi[2] - lo[2]]
}

// ---------------------------------------------------------------------------
// Choosing where to cut
// ---------------------------------------------------------------------------

/// What cutting bucket `i` along channel `ch` would gain: the spread of that
/// channel, or nothing for a bucket of at most one pixel.
pub open spec fn split_score(buckets: Seq<Seq<Rgba>>, i: int, ch: int) -> int {
    if buckets[i].len() > 1 {
        channel_range(buckets[i], ch)
    } else {
        0
    }
}

/// Whether `(j, c)` comes before `(i, ch)` when buckets are visited in order
/// and, within a bucket, red before green before blue.
pub open spec fn visited_before(j: int, c: int, i: int, ch: int) -> bool {
    j < i || (j == i && c < ch)
}

/// `(i, ch)` is the cut to make: its spread is positive, no other bucket and
/// channel has a larger one, and none visited earlier has one as large.
pub open spec fn is_widest(buckets: Seq<Seq<Rgba>>, i: int, ch: int) -> bool {
    &&& 0 <= i < buckets.len()
    &&& 0 <= ch < 3
    &&& split_score(buckets, i, ch) > 0
    &&& forall|j: int, c: int|
        0 <= j < buckets.len() && 0 <= c < 3 ==> #[trigger] split_score(buckets, j, c)
            <= split_score(buckets, i, ch)
    &&& forall|j: int, c: int|
        0 <= j < buckets.len() && 0 <= c < 3 && visited_before(j, c, i, ch)
            ==> #[trigger] split_score(buckets, j, c) < split_score(buckets, i, ch)
}

/// Whether any cut is left to make.
pub open spec fn can_split(buckets: Seq<Seq<Rgba>>) -> bool {
    exists|i: int, ch: int| is_widest(buckets, i, ch)
}

/// The cut to make, where there is one.
pub open spec fn widest(buckets: Seq<Seq<Rgba>>) -> (int, int) {
    choose|i: int, ch: int| is_widest(buckets, i, ch)
}

/// There is at most one cut to make.
pub proof fn lemma_widest_unique(buckets: Seq<Seq<Rgba>>, i: int, ch: int)
    requires
        is_widest(buckets, i, ch),
    ensures
        can_split(buckets),
        widest(buckets) == (i, ch),
{
    let (i2, ch2) = widest(buckets);
    assert(is_widest(buckets, i2, ch2));
    if visited_before(i2, ch2, i, ch) {
        assert(split_score(buckets, i2, ch2) < split_score(buckets, i, ch));
        assert(split_score(buckets, i, ch) <= split_score(buckets, i2, ch2));
    }
    if visited_before(i, ch, i2, ch2) {
        assert(split_score(buckets, i, ch) < split_score(buckets, i2, ch2));
        assert(split_score(buckets, i2, ch2) <= split_score(buckets, i, ch));
    }
}

/// The buckets of a vector of buckets, as sequences.
pub open spec fn bucket_views(buckets: Seq<Vec<Rgba>>) -> Seq<Seq<Rgba>> {
    Seq::new(buckets.len(), |i: int| buckets[i]@)
}

/// Finds the cut to make, if there is one.
fn find_widest(buckets: &Vec<Vec<Rgba>>) -> (found: Option<(usize, usize)>)
    ensures
        found matches Some((i, ch)) ==> is_widest(bucket_views(buckets@), i as int, ch as int),
        found is None ==> !can_split(bucket_views(buckets@)),
{
    let ghost views = bucket_views(buckets@);
    let mut best: Option<(usize, usize)> = None;
    let mut best_range: u8 = 0;
    let mut j: usize = 0;
    while j < buckets.len()
        invariant
            j <= buckets.len(),
            views == bucket_views(buckets@),
            best is None ==> best_range == 0,
            best matches Some((i, ch)) ==> i < j && ch < 3 && best_range == split_score(
                views,
                i as int,
                ch as int,
            ) && best_range > 0,
            forall|k: int, c: int|
                0 <= k < j && 0 <= c < 3 ==> #[trigger] split_score(views, k, c) <= best_range,
            best matches Some((i, ch)) ==> forall|k: int, c: int|
                0 <= k < j && 0 <= c < 3 && visited_before(k, c, i as int, ch as int)
                    ==> #[trigger] split_score(views, k, c) < best_range,
        decreases buckets.len() - j,
    {
        assert(views[j as int] == buckets@[j as int]@);
        if buckets[j].len() > 1 {
            let ranges = bucket_ranges(&buckets[j]);
            let mut c: usize = 0;
            while c < 3
                invariant
                    c <= 3,
                    j < buckets.len(),
                    views == bucket_views(buckets@),
                    views[j as int].len() > 1,
                    forall|ch: int| 0 <= ch < 3 ==> ranges[ch] == split_score(views, j as int, ch),
                    best is None ==> best_range == 0,
                    best matches Some((i, ch)) ==> (i < j || (i == j && ch < c)) && ch < 3
                        && best_range == split_score(views, i as int, ch as int) && best_range > 0,
                    forall|k: int, d: int|
                        0 <= k < j && 0 <= d < 3 ==> #[trigger] split_score(views, k, d)
                            <= best_range,
                    forall|d: int| 0 <= d < c ==> #[trigger] split_score(views, j as int, d) <= best_range,
                    best matches Some((i, ch)) ==> forall|k: int, d: int|
                        0 <= k <= j && 0 <= d < 3 && visited_before(k, d, i as int, ch as int)
                            ==> #[trigger] split_score(views, k, d) < best_range,
                decreases 3 - c,
            {
                if ranges[c] > best_range {
                    best_range = ranges[c];
                    best = Some((j, c));
                }
                c += 1;
            }
        }
        j += 1;
    }
    proof {
        match best {
            Some((i, ch)) => {
                assert(is_widest(views, i as int, ch as int));
            },
            None => {
                if can_split(views) {
                    let (i, ch) = widest(views);
                    assert(is_widest(views, i, ch));
                    assert(split_score(views, i, ch) <= best_range);
                }
            },
        }
    }
    best
}

// ---------------------------------------------------------------------------
// Cutting
// ---------------------------------------------------------------------------

/// The buckets after bucket `i` has been sorted along channel `ch` and cut at
/// its midpoint; the two halves take the place of the bucket.
pub open spec fn split_at(buckets: Seq<Seq<Rgba>>, i: int, ch: int) -> Seq<Seq<Rgba>> {
    let sorted = sort_by_channel(buckets[i], ch);
    let mid = (sorted.len() / 2) as int;
    buckets.take(i).push(sorted.take(mid)).push(sorted.skip(mid)) + buckets.skip(i + 1)
}

/// The buckets that are left when cutting stops: there are `max_colors` of
/// them, or no bucket of two or more pixels has any spread.
pub open spec fn cut(buckets: Seq<Seq<Rgba>>, max_colors: nat) -> Seq<Seq<Rgba>>
    decreases max_colors - buckets.len(),
    via cut_terminates
{
    if buckets.len() < max_colors && can_split(buckets) {
        let (i, ch) = widest(buckets);
        cut(split_at(buckets, i, ch), max_colors)
    } else {
        buckets
    }
}

/// Each cut adds a bucket, so cutting comes to an end.
#[via_fn]
proof fn cut_terminates(buckets: Seq<Seq<Rgba>>, max_colors: nat) {
    if buckets.len() < max_colors && can_split(buckets) {
        let (i, ch) = widest(buckets);
        assert(is_widest(buckets, i, ch));
    }
}

/// The buckets that median cut leaves of `pixels`: none for no pixels or no
/// colours, else those cut from the one bucket of all pixels.
pub open spec fn final_buckets(pixels: Seq<Rgba>, max_colors: nat) -> Seq<Seq<Rgba>> {
    if pixels.len() == 0 || max_colors == 0 {
        Seq::empty()
    } else {
        cut(seq![pixels], max_colors)
    }
}

/// The sum of the samples of channel `ch` over `s`.
pub open spec fn channel_sum(s: Seq<Rgba>, ch: int) -> int
    decreases s.len(),
{
    if s.len() == 0 {
        0
    } else {
        channel_sum(s.drop_last(), ch) + s.last()[ch]
    }
}

/// The representative of a non-empty bucket: per colour channel the mean of
/// the samples, rounded down, and full alpha.
pub open spec fn mean_color(bucket: Seq<Rgba>) -> Rgba {
    [
        (channel_sum(bucket, 0) / (bucket.len() as int)) as u8,
        (channel_sum(bucket, 1) / (bucket.len() as int)) as u8,
        (channel_sum(bucket, 2) / (bucket.len() as int)) as u8,
        255u8,
    ]
}

/// The representative of each bucket, in bucket order.
pub open spec fn palette_of(buckets: Seq<Seq<Rgba>>) -> Seq<Rgba> {
    Seq::new(buckets.len(), |i: int| mean_color(buckets[i]))
}

/// The median-cut palette of `pixels` for `max_colors` colours.
pub open spec fn median_cut_palette(pixels: Seq<Rgba>, max_colors: nat) -> Seq<Rgba> {
    palette_of(final_buckets(pixels, max_colors))
}

/// No bucket is empty.
pub open spec fn all_nonempty(buckets: Seq<Seq<Rgba>>) -> bool {
    forall|i: int| 0 <= i < buckets.len() ==> (#[trigger] buckets[i]).len() > 0
}

/// A cut adds one bucket and leaves none empty.
pub proof fn lemma_split_shape(buckets: Seq<Seq<Rgba>>, i: int, ch: int)
    requires
        is_widest(buckets, i, ch),
        all_nonempty(buckets),
    ensures
        split_at(buckets, i, ch).len() == buckets.len() + 1,
        all_nonempty(split_at(buckets, i, ch)),
{
    lemma_sort_len(buckets[i], ch);
    let after = split_at(buckets, i, ch);
    assert forall|k: int| 0 <= k < after.len() implies (#[trigger] after[k]).len() > 0 by {
        if k < i {
            assert(after[k] == buckets[k]);
        } else if k > i + 1 {
            assert(after[k] == buckets[k - 1]);
        }
    }
}

/// A sum of samples is at most 255 for each pixel.
pub proof fn lemma_channel_sum_bound(s: Seq<Rgba>, ch: int)
    requires
        0 <= ch < 4,
    ensures
        0 <= channel_sum(s, ch) <= 255 * s.len(),
    decreases s.len(),
{
    if s.len() > 0 {
        lemma_channel_sum_bound(s.drop_last(), ch);
    }
}

/// The representative colour of a bucket.
fn bucket_mean(bucket: &Vec<Rgba>) -> (color: Rgba)
    requires
        bucket@.len() > 0,
    ensures
        color == mean_color(bucket@),
{
    let mut sums: [u128; 3] = [0, 0, 0];
    let mut i: usize = 0;
    while i < bucket.len()
        invariant
            i <= bucket.len(),
            forall|ch: int| 0 <= ch < 3 ==> sums[ch] == channel_sum(bucket@.take(i as int), ch),
        decreases bucket.len() - i,
    {
        let pixel = bucket[i];
        proof {
            assert(bucket@.take(i + 1).drop_last() =~= bucket@.take(i as int));
            lemma_channel_sum_bound(bucket@.take(i as int), 0);
            lemma_channel_sum_bound(bucket@.take(i as int), 1);
            lemma_channel_sum_bound(bucket@.take(i as int), 2);
        }
        sums = [sums[0] + pixel[0] as u128, sums[1] + pixel[1] as u128, sums[2] + pixel[2] as u128];
        i += 1;
    }
    let count = bucket.len() as u128;
    proof {
        assert(bucket@.take(bucket.len() as int) =~= bucket@);
        lemma_channel_sum_bound(bucket@, 0);
        lemma_channel_sum_bound(bucket@, 1);
        lemma_channel_sum_bound(bucket@, 2);
        assert forall|sum: int, n: int| 0 <= sum <= 255 * n && n > 0 implies 0 <= #[trigger] (sum / n)
            <= 255 by {
            assert(0 <= sum / n <= 255) by (nonlinear_arith)
                requires
                    0 <= sum <= 255 * n,
                    n > 0,
            ;
        }
    }
    let color = [(sums[0] / count) as u8, (sums[1] / count) as u8, (sums[2] / count) as u8, 255];
    assert(color =~= mean_color(bucket@));
    color
}

/// A copy of a pixel buffer.
pub fn copy_pixels(pixels: &Vec<Rgba>) -> (copy: Vec<Rgba>)
    ensures
        copy@ == pixels@,
{
    let mut copy: Vec<Rgba> = Vec::with_capacity(pixels.len());
    let mut i: usize = 0;
    while i < pixels.len()
        invariant
            i <= pixels.len(),
            copy@ == pixels@.take(i as int),
        decreases pixels.len() - i,
    {
        copy.push(pixels[i]);
        proof {
            assert(pixels@.take(i + 1) =~= pixels@.take(i as int).push(pixels@[i as int]));
        }
        i += 1;
    }
    proof {
        assert(pixels@.take(pixels.len() as int) =~= pixels@);
    }
    copy
}

/// Reduces `pixels` to at most `max_colors` representative colours by median
/// cut.  The pixels are taken as they come: leaving out transparent or
/// background pixels is the caller's part.
pub fn median_cut(pixels: &Vec<Rgba>, max_colors: usize) -> (palette: Vec<Rgba>)
    ensures
        palette@ == median_cut_palette(pixels@, max_colors as nat),
        palette@.len() <= max_colors,
        palette@.len() <= pixels@.len(),
{
    let mut palette: Vec<Rgba> = Vec::new();
    if pixels.len() == 0 || max_colors == 0 {
        assert(palette@ =~= median_cut_palette(pixels@, max_colors as nat));
        return palette;
    }
    let mut buckets: Vec<Vec<Rgba>> = Vec::new();
    buckets.push(copy_pixels(pixels));
    assert(bucket_views(buckets@) =~= seq![pixels@]);
    proof {
        lemma_total_single(pixels@);
    }
    while buckets.len() < max_colors
        invariant
            0 < buckets.len() <= max_colors,
            all_nonempty(bucket_views(buckets@)),
            total_len(bucket_views(buckets@)) == pixels@.len(),
            cut(bucket_views(buckets@), max_colors as nat) == final_buckets(
                pixels@,
                max_colors as nat,
            ),
        ensures
            0 < buckets.len() <= max_colors,
            all_nonempty(bucket_views(buckets@)),
            total_len(bucket_views(buckets@)) == pixels@.len(),
            bucket_views(buckets@) == final_buckets(pixels@, max_colors as nat),
        decreases max_colors - buckets.len(),
    {
        let ghost before = bucket_views(buckets@);
        match find_widest(&buckets) {
            None => {
                break ;
            },
            Some((i, ch)) => {
                proof {
                    lemma_widest_unique(before, i as int, ch as int);
                    lemma_split_shape(before, i as int, ch as int);
                    lemma_split_total(before, i as int, ch as int);
                    assert(before[i as int] == buckets@[i as int]@);
                }
                let mut left = sort_bucket(&buckets[i], ch);
                let mid = left.len() / 2;
                let right = left.split_off(mid);
                buckets.remove(i);
                buckets.insert(i, left);
                buckets.insert(i + 1, right);
                proof {
                    assert(bucket_views(buckets@) =~= split_at(before, i as int, ch as int));
                }
            },
        }
    }
    proof {
        lemma_total_at_least_count(bucket_views(buckets@));
    }
    let mut k: usize = 0;
    while k < buckets.len()
        invariant
            k <= buckets.len(),
            all_nonempty(bucket_views(buckets@)),
            palette@.len() == k,
            forall|i: int|
                0 <= i < k ==> #[trigger] palette@[i] == mean_color(bucket_views(buckets@)[i]),
        decreases buckets.len() - k,
    {
        assert(bucket_views(buckets@)[k as int] == buckets@[k as int]@);
        let color = bucket_mean(&buckets[k]);
        palette.push(color);
        k += 1;
    }
    assert(palette@ =~= median_cut_palette(pixels@, max_colors as nat));
    palette
}

/// The number of pixels in all buckets together.
pub open spec fn total_len(buckets: Seq<Seq<Rgba>>) -> nat
    decreases buckets.len(),
{
    if buckets.len() == 0 {
        0
    } else {
        total_len(buckets.drop_last()) + buckets.last().len()
    }
}

/// One bucket holds what it holds.
pub proof fn lemma_total_single(pixels: Seq<Rgba>)
    ensures
        total_len(seq![pixels]) == pixels.len(),
{
    assert(seq![pixels].drop_last() =~= Seq::<Seq<Rgba>>::empty());
    assert(total_len(Seq::<Seq<Rgba>>::empty()) == 0);
}

/// Buckets put together hold what they hold apart.
pub proof fn lemma_total_concat(a: Seq<Seq<Rgba>>, b: Seq<Seq<Rgba>>)
    ensures
        total_len(a + b) == total_len(a) + total_len(b),
    decreases b.len(),
{
    if b.len() == 0 {
        assert(a + b =~= a);
    } else {
        assert((a + b).drop_last() =~= a + b.drop_last());
        lemma_total_concat(a, b.drop_last());
    }
}

/// A cut keeps the number of pixels.
pub proof fn lemma_split_total(buckets: Seq<Seq<Rgba>>, i: int, ch: int)
    requires
        0 <= i < buckets.len(),
        0 <= ch < 3,
    ensures
        total_len(split_at(buckets, i, ch)) == total_len(buckets),
{
    let sorted = sort_by_channel(buckets[i], ch);
    let mid = (sorted.len() / 2) as int;
    lemma_sort_len(buckets[i], ch);
    let head = buckets.take(i);
    let tail = buckets.skip(i + 1);
    let halves = seq![sorted.take(mid), sorted.skip(mid)];
    assert(split_at(buckets, i, ch) =~= head + halves + tail);
    assert(buckets =~= head + seq![buckets[i]] + tail);
    lemma_total_concat(head + halves, tail);
    lemma_total_concat(head, halves);
    lemma_total_concat(head + seq![buckets[i]], tail);
    lemma_total_concat(head, seq![buckets[i]]);
    lemma_total_single(buckets[i]);
    assert(halves.drop_last() =~= seq![sorted.take(mid)]);
    lemma_total_single(sorted.take(mid));
    assert(total_len(halves) == sorted.take(mid).len() + sorted.skip(mid).len());
}

/// Buckets that are all non-empty hold at least as many pixels as there are
/// buckets.
pub proof fn lemma_total_at_least_count(buckets: Seq<Seq<Rgba>>)
    requires
        all_nonempty(buckets),
    ensures
        total_len(buckets) >= buckets.len(),
    decreases buckets.len(),
{
    if buckets.len() > 0 {
        let rest = buckets.drop_last();
        assert forall|i: int| 0 <= i < rest.len() implies (#[trigger] rest[i]).len() > 0 by {
            assert(rest[i] == buckets[i]);
        }
        lemma_total_at_least_count(rest);
        assert(buckets.last() == buckets[buckets.len() - 1]);
    }
}

// ---------------------------------------------------------------------------
// What holds of a median cut
// ---------------------------------------------------------------------------

/// Cutting never makes more buckets than colours asked for, unless there
/// were more to begin with.
pub proof fn lemma_cut_bound(buckets: Seq<Seq<Rgba>>, max_colors: nat)
    ensures
        buckets.len() <= cut(buckets, max_colors).len(),
        buckets.len() <= max_colors ==> cut(buckets, max_colors).len() <= max_colors,
    decreases max_colors - buckets.len(),
{
    if buckets.len() < max_colors && can_split(buckets) {
        let (i, ch) = widest(buckets);
        assert(is_widest(buckets, i, ch));
        lemma_sort_len(buckets[i], ch);
        lemma_cut_bound(split_at(buckets, i, ch), max_colors);
    }
}

/// The palette never holds more colours than were asked for, nor more than
/// there are pixels.
pub proof fn law_palette_bound(pixels: Seq<Rgba>, max_colors: nat)
    ensures
        median_cut_palette(pixels, max_colors).len() <= max_colors,
        median_cut_palette(pixels, max_colors).len() <= pixels.len(),
{
    if pixels.len() > 0 && max_colors > 0 {
        lemma_cut_bound(seq![pixels], max_colors);
        lemma_cut_keeps(seq![pixels], max_colors);
        lemma_total_single(pixels);
        lemma_total_at_least_count(cut(seq![pixels], max_colors));
    }
}

/// Some bucket holds the pixel `p`.
pub open spec fn holds(buckets: Seq<Seq<Rgba>>, p: Rgba) -> bool {
    exists|i: int| 0 <= i < buckets.len() && (#[trigger] buckets[i]).contains(p)
}

/// The pixels picked by a sample value are the pixels that have it.
pub proof fn lemma_with_value_members(s: Seq<Rgba>, ch: int, v: int, p: Rgba)
    ensures
        with_value(s, ch, v).contains(p) <==> s.contains(p) && p[ch] == v,
    decreases s.len(),
{
    if s.len() > 0 {
        let front = s.drop_last();
        lemma_with_value_members(front, ch, v, p);
        let kept = with_value(front, ch, v);
        if s.contains(p) {
            let i = choose|i: int| 0 <= i < s.len() && s[i] == p;
            if i < front.len() {
                assert(front[i] == p);
            }
        }
        if front.contains(p) {
            let i = choose|i: int| 0 <= i < front.len() && front[i] == p;
            assert(s[i] == p);
        }
        if s.last()[ch] == v {
            let all = kept.push(s.last());
            if kept.contains(p) {
                let i = choose|i: int| 0 <= i < kept.len() && kept[i] == p;
                assert(all[i] == p);
            }
            if all.contains(p) {
                let i = choose|i: int| 0 <= i < all.len() && all[i] == p;
                if i < kept.len() {
                    assert(kept[i] == p);
                } else {
                    assert(s[s.len() - 1] == p);
                }
            }
            if p == s.last() {
                assert(all[kept.len() as int] == p);
                assert(s[s.len() - 1] == p);
            }
        } else {
            if p == s.last() {
                assert(s[s.len() - 1] == p);
            }
        }
    }
}

/// What is sorted below a bound are the pixels with a sample below it.
pub proof fn lemma_sorted_below_members(s: Seq<Rgba>, ch: int, bound: int, p: Rgba)
    requires
        0 <= ch < 4,
    ensures
        sorted_below(s, ch, bound).contains(p) <==> s.contains(p) && p[ch] < bound,
    decreases bound,
{
    if bound > 0 {
        let low = sorted_below(s, ch, bound - 1);
        let at = with_value(s, ch, bound - 1);
        lemma_sorted_below_members(s, ch, bound - 1, p);
        lemma_with_value_members(s, ch, bound - 1, p);
        let all = low + at;
        if low.contains(p) {
            let i = choose|i: int| 0 <= i < low.len() && low[i] == p;
            assert(all[i] == p);
        }
        if at.contains(p) {
            let i = choose|i: int| 0 <= i < at.len() && at[i] == p;
            assert(all[low.len() + i] == p);
        }
        if all.contains(p) {
            let i = choose|i: int| 0 <= i < all.len() && all[i] == p;
            if i < low.len() {
                assert(low[i] == p);
            } else {
                assert(at[i - low.len()] == p);
            }
        }
    }
}

/// Sorting neither adds nor loses a pixel.
pub proof fn lemma_sort_members(s: Seq<Rgba>, ch: int, p: Rgba)
    requires
        0 <= ch < 4,
    ensures
        sort_by_channel(s, ch).contains(p) <==> s.contains(p),
{
    lemma_sorted_below_members(s, ch, 256, p);
}

/// A cut neither adds nor loses a pixel.
pub proof fn lemma_split_holds(buckets: Seq<Seq<Rgba>>, i: int, ch: int, p: Rgba)
    requires
        0 <= i < buckets.len(),
        0 <= ch < 3,
    ensures
        holds(split_at(buckets, i, ch), p) <==> holds(buckets, p),
{
    let sorted = sort_by_channel(buckets[i], ch);
    let mid = (sorted.len() / 2) as int;
    let left = sorted.take(mid);
    let right = sorted.skip(mid);
    let after = split_at(buckets, i, ch);
    lemma_sort_members(buckets[i], ch, p);
    lemma_sort_len(buckets[i], ch);
    assert(after.len() == buckets.len() + 1);
    assert(after[i] == left);
    assert(after[i + 1] == right);
    if holds(buckets, p) {
        let j = choose|j: int| 0 <= j < buckets.len() && (#[trigger] buckets[j]).contains(p);
        if j < i {
            assert(after[j] == buckets[j]);
        } else if j > i {
            assert(after[j + 1] == buckets[j]);
        } else {
            let k = choose|k: int| 0 <= k < sorted.len() && sorted[k] == p;
            if k < mid {
                assert(left[k] == p);
                assert(after[i].contains(p));
            } else {
                assert(right[k - mid] == p);
                assert(after[i + 1].contains(p));
            }
        }
    }
    if holds(after, p) {
        let j = choose|j: int| 0 <= j < after.len() && (#[trigger] after[j]).contains(p);
        if j < i {
            assert(after[j] == buckets[j]);
        } else if j > i + 1 {
            assert(after[j] == buckets[j - 1]);
        } else if j == i {
            let k = choose|k: int| 0 <= k < left.len() && left[k] == p;
            assert(sorted[k] == p);
            assert(buckets[i].contains(p));
        } else {
            let k = choose|k: int| 0 <= k < right.len() && right[k] == p;
            assert(sorted[k + mid] == p);
            assert(buckets[i].contains(p));
        }
    }
}

/// Cutting keeps the pixels: none is added, none is lost, no bucket is left
/// empty.  It stops only with as many buckets as colours asked for or with no
/// cut left to make.
pub proof fn lemma_cut_keeps(buckets: Seq<Seq<Rgba>>, max_colors: nat)
    requires
        all_nonempty(buckets),
    ensures
        all_nonempty(cut(buckets, max_colors)),
        total_len(cut(buckets, max_colors)) == total_len(buckets),
        forall|p: Rgba| #[trigger] holds(cut(buckets, max_colors), p) <==> holds(buckets, p),
        cut(buckets, max_colors).len() >= max_colors || !can_split(cut(buckets, max_colors)),
    decreases max_colors - buckets.len(),
{
    if buckets.len() < max_colors && can_split(buckets) {
        let (i, ch) = widest(buckets);
        assert(is_widest(buckets, i, ch));
        let after = split_at(buckets, i, ch);
        lemma_split_shape(buckets, i, ch);
        lemma_split_total(buckets, i, ch);
        lemma_cut_keeps(after, max_colors);
        assert forall|p: Rgba| #[trigger] holds(cut(buckets, max_colors), p) <==> holds(buckets, p) by {
            lemma_split_holds(buckets, i, ch, p);
            assert(holds(cut(after, max_colors), p) <==> holds(after, p));
        }
    }
}

/// The first widest cut among the first `k` places, visiting the buckets in
/// order and in each the channels red, green, blue; `(-1, -1)` when none of
/// those places has any spread.
proof fn widest_among(buckets: Seq<Seq<Rgba>>, k: int) -> (best: (int, int))
    requires
        0 <= k <= 3 * buckets.len(),
    ensures
        best == (-1int, -1int) ==> forall|j: int, c: int|
            0 <= j < buckets.len() && 0 <= c < 3 && 3 * j + c < k ==> #[trigger] split_score(buckets, j, c)
                <= 0,
        best != (-1int, -1int) ==> {
            &&& 0 <= best.0 < buckets.len()
            &&& 0 <= best.1 < 3
            &&& 3 * best.0 + best.1 < k
            &&& split_score(buckets, best.0, best.1) > 0
            &&& forall|j: int, c: int|
                0 <= j < buckets.len() && 0 <= c < 3 && 3 * j + c < k ==> #[trigger] split_score(
                    buckets,
                    j,
                    c,
                ) <= split_score(buckets, best.0, best.1)
            &&& forall|j: int, c: int|
                0 <= j < buckets.len() && 0 <= c < 3 && visited_before(j, c, best.0, best.1)
                    ==> #[trigger] split_score(buckets, j, c) < split_score(buckets, best.0, best.1)
        },
    decreases k,
{
    if k == 0 {
        (-1, -1)
    } else {
        let before = widest_among(buckets, k - 1);
        let j = (k - 1) / 3;
        let c = (k - 1) % 3;
        let here = split_score(buckets, j, c);
        assert(3 * j + c == k - 1);
        if before == (-1int, -1int) {
            if here > 0 {
                (j, c)
            } else {
                (-1, -1)
            }
        } else if here > split_score(buckets, before.0, before.1) {
            (j, c)
        } else {
            before
        }
    }
}

/// Where some bucket of two or more pixels has any spread, there is a cut to
/// make.
pub proof fn lemma_widest_exists(buckets: Seq<Seq<Rgba>>, j: int, c: int)
    requires
        0 <= j < buckets.len(),
        0 <= c < 3,
        split_score(buckets, j, c) > 0,
    ensures
        can_split(buckets),
{
    let best = widest_among(buckets, 3 * (buckets.len() as int));
    assert(split_score(buckets, j, c) <= 0 || best != (-1int, -1int));
    assert(is_widest(buckets, best.0, best.1));
}

/// All pixels of the bucket show one colour.
pub open spec fn is_monochrome(bucket: Seq<Rgba>) -> bool {
    forall|a: int, b: int|
        0 <= a < bucket.len() && 0 <= b < bucket.len() ==> same_rgb(#[trigger] bucket[a], #[trigger] bucket[b])
}

/// Samples that are all alike add up to their number times that sample.
pub proof fn lemma_uniform_sum(s: Seq<Rgba>, ch: int, v: int)
    requires
        forall|i: int| 0 <= i < s.len() ==> (#[trigger] s[i])[ch] == v,
    ensures
        channel_sum(s, ch) == s.len() * v,
    decreases s.len(),
{
    if s.len() > 0 {
        let front = s.drop_last();
        assert forall|i: int| 0 <= i < front.len() implies (#[trigger] front[i])[ch] == v by {
            assert(front[i] == s[i]);
        }
        lemma_uniform_sum(front, ch, v);
        assert(s.last() == s[s.len() - 1]);
        assert(s.len() * v == front.len() * v + v) by (nonlinear_arith)
            requires
                s.len() == front.len() + 1,
        ;
    }
}

/// The representative of a bucket of one colour is that colour.
pub proof fn lemma_monochrome_mean(bucket: Seq<Rgba>)
    requires
        bucket.len() > 0,
        is_monochrome(bucket),
    ensures
        same_rgb(mean_color(bucket), bucket[0]),
        mean_color(bucket)[3] == 255,
{
    let n = bucket.len() as int;
    assert forall|ch: int| 0 <= ch < 3 implies channel_sum(bucket, ch) / n == bucket[0][ch] by {
        let v = bucket[0][ch] as int;
        assert forall|i: int| 0 <= i < bucket.len() implies (#[trigger] bucket[i])[ch] == v by {
            assert(same_rgb(bucket[i], bucket[0]));
        }
        lemma_uniform_sum(bucket, ch, v);
        assert((n * v) / n == v) by (nonlinear_arith)
            requires
                n > 0,
        ;
    }
}

/// A bucket that no cut would part is of one colour.
pub proof fn lemma_no_spread_monochrome(buckets: Seq<Seq<Rgba>>, j: int)
    requires
        0 <= j < buckets.len(),
        !can_split(buckets),
    ensures
        is_monochrome(buckets[j]),
{
    let bucket = buckets[j];
    if bucket.len() > 1 {
        assert forall|a: int, b: int| 0 <= a < bucket.len() && 0 <= b < bucket.len() implies same_rgb(
            #[trigger] bucket[a],
            #[trigger] bucket[b],
        ) by {
            assert forall|c: int| 0 <= c < 3 implies bucket[a][c] == bucket[b][c] by {
                lemma_channel_bounds(bucket, c);
                if split_score(buckets, j, c) > 0 {
                    lemma_widest_exists(buckets, j, c);
                }
            }
        }
    }
}

/// Buckets that hold no more pixels than there are buckets, none of them
/// empty, hold one pixel each.
pub proof fn lemma_all_single(buckets: Seq<Seq<Rgba>>, j: int)
    requires
        all_nonempty(buckets),
        total_len(buckets) <= buckets.len(),
        0 <= j < buckets.len(),
    ensures
        buckets[j].len() == 1,
    decreases buckets.len(),
{
    let front = buckets.drop_last();
    assert forall|i: int| 0 <= i < front.len() implies (#[trigger] front[i]).len() > 0 by {
        assert(front[i] == buckets[i]);
    }
    lemma_total_at_least_count(front);
    assert(buckets.last() == buckets[buckets.len() - 1]);
    if j < front.len() {
        lemma_all_single(front, j);
        assert(front[j] == buckets[j]);
    }
}

/// Whether `color` is the opaque colour of some pixel of `pixels`.
pub open spec fn is_color_of(color: Rgba, pixels: Seq<Rgba>) -> bool {
    color[3] == 255 && exists|i: int| 0 <= i < pixels.len() && same_rgb(color, #[trigger] pixels[i])
}

/// Whether the palette holds the colour of `pixel`.
pub open spec fn has_color(palette: Seq<Rgba>, pixel: Rgba) -> bool {
    exists|k: int| 0 <= k < palette.len() && same_rgb(#[trigger] palette[k], pixel)
}

/// Where every bucket that the cut leaves is of one colour, the palette is
/// the set of the pixels' colours: each colour of a pixel is in it, and it
/// holds nothing else.
pub proof fn law_exact_palette(pixels: Seq<Rgba>, max_colors: nat)
    requires
        max_colors > 0,
        forall|j: int|
            0 <= j < final_buckets(pixels, max_colors).len() ==> is_monochrome(
                #[trigger] final_buckets(pixels, max_colors)[j],
            ),
    ensures
        forall|k: int|
            0 <= k < median_cut_palette(pixels, max_colors).len() ==> is_color_of(
                #[trigger] median_cut_palette(pixels, max_colors)[k],
                pixels,
            ),
        forall|i: int|
            0 <= i < pixels.len() ==> has_color(median_cut_palette(pixels, max_colors), #[trigger] pixels[i]),
{
    let palette = median_cut_palette(pixels, max_colors);
    if pixels.len() > 0 {
        let start = seq![pixels];
        let buckets = final_buckets(pixels, max_colors);
        lemma_cut_keeps(start, max_colors);
        assert forall|k: int| 0 <= k < palette.len() implies is_color_of(#[trigger] palette[k], pixels) by {
            let bucket = buckets[k];
            lemma_monochrome_mean(bucket);
            assert(bucket.contains(bucket[0]));
            assert(holds(buckets, bucket[0]));
            assert(holds(start, bucket[0]));
            let b = choose|b: int| 0 <= b < start.len() && (#[trigger] start[b]).contains(bucket[0]);
            let i = choose|i: int| 0 <= i < pixels.len() && pixels[i] == bucket[0];
            assert(same_rgb(palette[k], pixels[i]));
        }
        assert forall|i: int| 0 <= i < pixels.len() implies has_color(palette, #[trigger] pixels[i]) by {
            assert(start[0].contains(pixels[i]));
            assert(holds(start, pixels[i]));
            assert(holds(buckets, pixels[i]));
            let k = choose|k: int| 0 <= k < buckets.len() && (#[trigger] buckets[k]).contains(pixels[i]);
            let bucket = buckets[k];
            lemma_monochrome_mean(bucket);
            let at = choose|at: int| 0 <= at < bucket.len() && bucket[at] == pixels[i];
            assert(same_rgb(bucket[at], bucket[0]));
            assert(same_rgb(palette[k], pixels[i]));
        }
    }
}

/// With no more pixels than colours asked for, every bucket that the cut
/// leaves is of one colour, so the palette is exactly the pixels' colours.
pub proof fn law_few_pixels_exact(pixels: Seq<Rgba>, max_colors: nat)
    requires
        0 < pixels.len() <= max_colors,
    ensures
        forall|j: int|
            0 <= j < final_buckets(pixels, max_colors).len() ==> is_monochrome(
                #[trigger] final_buckets(pixels, max_colors)[j],
            ),
{
    let start = seq![pixels];
    let buckets = final_buckets(pixels, max_colors);
    lemma_cut_keeps(start, max_colors);
    lemma_total_single(pixels);
    assert forall|j: int| 0 <= j < buckets.len() implies is_monochrome(#[trigger] buckets[j]) by {
        if buckets.len() >= max_colors {
            lemma_all_single(buckets, j);
        } else {
            lemma_no_spread_monochrome(buckets, j);
        }
    }
}

} // verus!
