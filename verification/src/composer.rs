//! The pattern composer: recoloring of the pixelized raster onto catalog
//! colors (transparent pixels become background white), the color histogram,
//! floss numbering, the legend ordering, symbol assignment, pagination and
//! tiling of the chart.

use vstd::prelude::*;
use vstd::seq_lib::group_seq_properties;

use crate::catalog::{
    floss_lookup, lemma_nearest_in_first_min, nearest_in, Catalog, CatalogEntry, Rgb,
};

verus! {

broadcast use group_seq_properties;

/// An 8-bit sRGB color with its alpha channel, as decoded from the
/// pixelized raster.
#[derive(Clone, Copy, Debug, PartialEq, Eq, Structural)]
pub struct Rgba {
    pub r: u8,
    pub g: u8,
    pub b: u8,
    pub a: u8,
}

impl Rgba {
    /// The color without its alpha channel.
    pub open spec fn rgb_spec(self) -> Rgb {
        Rgb { r: self.r, g: self.g, b: self.b }
    }

    /// The color without its alpha channel.
    pub fn rgb(self) -> (c: Rgb)
        ensures
            c == self.rgb_spec(),
    {
        Rgb { r: self.r, g: self.g, b: self.b }
    }
}

/// The color one input pixel takes in the pattern: fully transparent pixels
/// become opaque background white, every other pixel snaps to the nearest
/// catalog color.
pub open spec fn snapped_pixel(p: Rgba, entries: Seq<CatalogEntry>) -> Rgb {
    if p.a == 0 {
        Rgb { r: 255, g: 255, b: 255 }
    } else {
        entries[nearest_in(entries, p.rgb_spec())].color
    }
}

/// Recolors the decoded raster for the pattern: a pixel with alpha zero is
/// replaced by opaque white and never stitched; every other pixel is
/// replaced by the nearest catalog color in Lab distance.
pub fn recolor(pixels: &Vec<Rgba>, catalog: &Catalog) -> (r: Vec<Rgb>)
    requires
        catalog.entries@.len() > 0,
    ensures
        r@.len() == pixels@.len(),
        forall|i: int|
            0 <= i < pixels@.len() ==> #[trigger] r@[i] == snapped_pixel(
                pixels@[i],
                catalog.entries@,
            ),
        forall|i: int| 0 <= i < pixels@.len() ==> pixels@[i].a == 0 ==> (#[trigger] r@[i]).is_white(),
{
    let mut out: Vec<Rgb> = Vec::new();
    let mut i: usize = 0;
    while i < pixels.len()
        invariant
            i <= pixels@.len(),
            out@.len() == i,
            catalog.entries@.len() > 0,
            forall|k: int|
                0 <= k < i ==> #[trigger] out@[k] == snapped_pixel(pixels@[k], catalog.entries@),
        decreases pixels@.len() - i,
    {
        let p = pixels[i];
        if p.a == 0 {
            out.push(Rgb::white());
        } else {
            let idx = catalog.nearest(p.rgb());
            out.push(catalog.entries[idx].color);
        }
        i = i + 1;
    }
    out
}

/// One bar of the color histogram: a used color and how many stitches it
/// covers.
#[derive(Clone, Copy, Debug, PartialEq, Eq, Structural)]
pub struct ColorCount {
    pub color: Rgb,
    pub count: u64,
}

/// Number of pixels of exactly the color `c`.
pub open spec fn count_color(pixels: Seq<Rgb>, c: Rgb) -> int
    decreases pixels.len(),
{
    if pixels.len() == 0 {
        0
    } else {
        count_color(pixels.drop_last(), c) + if pixels.last() == c {
            1int
        } else {
            0int
        }
    }
}

/// A color count never exceeds the pixel count.
proof fn lemma_count_color_le_len(pixels: Seq<Rgb>, c: Rgb)
    ensures
        0 <= count_color(pixels, c) <= pixels.len(),
    decreases pixels.len(),
{
    if pixels.len() > 0 {
        lemma_count_color_le_len(pixels.drop_last(), c);
    }
}

/// A color that no pixel has is counted zero times.
proof fn lemma_count_color_zero(pixels: Seq<Rgb>, c: Rgb)
    requires
        forall|j: int| 0 <= j < pixels.len() ==> #[trigger] pixels[j] != c,
    ensures
        count_color(pixels, c) == 0,
    decreases pixels.len(),
{
    if pixels.len() > 0 {
        lemma_count_color_zero(pixels.drop_last(), c);
    }
}

/// The colors of a histogram, in bar order.
pub open spec fn hist_colors(h: Seq<ColorCount>) -> Seq<Rgb> {
    h.map_values(|e: ColorCount| e.color)
}

/// The frequency histogram of the non-white pixels: one bar per distinct
/// color, with its exact pixel count; white is background and never counted.
pub fn histogram(pixels: &Vec<Rgb>) -> (r: Vec<ColorCount>)
    ensures
        forall|t: int| 0 <= t < r@.len() ==> !(#[trigger] r@[t]).color.is_white(),
        forall|t1: int, t2: int|
            0 <= t1 < t2 < r@.len() ==> (#[trigger] r@[t1]).color != (#[trigger] r@[t2]).color,
        forall|t: int|
            0 <= t < r@.len() ==> (#[trigger] r@[t]).count == count_color(pixels@, r@[t].color)
                && r@[t].count > 0,
        forall|i: int|
            0 <= i < pixels@.len() && !(#[trigger] pixels@[i]).is_white() ==> hist_colors(
                r@,
            ).contains(pixels@[i]),
{
    let mut hist: Vec<ColorCount> = Vec::new();
    let mut i: usize = 0;
    while i < pixels.len()
        invariant
            i <= pixels@.len(),
            forall|t: int| 0 <= t < hist@.len() ==> !(#[trigger] hist@[t]).color.is_white(),
            forall|t1: int, t2: int|
                0 <= t1 < t2 < hist@.len() ==> (#[trigger] hist@[t1]).color != (
                #[trigger] hist@[t2]).color,
            forall|t: int|
                0 <= t < hist@.len() ==> (#[trigger] hist@[t]).count == count_color(
                    pixels@.take(i as int),
                    hist@[t].color,
                ) && hist@[t].count > 0,
            forall|k: int|
                0 <= k < i && !(#[trigger] pixels@[k]).is_white() ==> hist_colors(hist@).contains(
                    pixels@[k],
                ),
        decreases pixels@.len() - i,
    {
        let p = pixels[i];
        let ghost prev = hist@;
        proof {
            assert(pixels@.take(i + 1).drop_last() =~= pixels@.take(i as int));
            assert(pixels@.take(i + 1).last() == pixels@[i as int]);
            lemma_count_color_le_len(pixels@.take(i as int), pixels@[i as int]);
        }
        if !(p.r == 255 && p.g == 255 && p.b == 255) {
            let mut t: usize = 0;
            let mut found = false;
            while t < hist.len() && !found
                invariant
                    t <= hist@.len(),
                    hist@ == prev,
                    found ==> t < hist@.len() && hist@[t as int].color == p,
                    !found ==> forall|u: int| 0 <= u < t ==> (#[trigger] hist@[u]).color != p,
                    p == pixels@[i as int],
                decreases hist@.len() - t + if found {
                    0int
                } else {
                    1int
                },
            {
                if hist[t].color.r == p.r && hist[t].color.g == p.g && hist[t].color.b == p.b {
                    found = true;
                } else {
                    t = t + 1;
                }
            }
            if found {
                let e = hist[t];
                hist[t] = ColorCount { color: e.color, count: e.count + 1 };
                proof {
                    assert(hist@ =~= prev.update(t as int, hist@[t as int]));
                    assert(hist_colors(hist@) =~= hist_colors(prev));
                    assert forall|u: int| 0 <= u < hist@.len() implies (#[trigger] hist@[u]).count
                        == count_color(pixels@.take(i + 1), hist@[u].color) by {
                        if u != t {
                            assert(hist@[u] == prev[u]);
                            assert(hist@[u].color != p);
                        }
                    }
                }
            } else {
                hist.push(ColorCount { color: p, count: 1 });
                proof {
                    assert(hist_colors(hist@) =~= hist_colors(prev).push(p));
                    assert forall|k: int| 0 <= k < i implies #[trigger] pixels@.take(i as int)[k]
                        != p by {
                        if pixels@[k] == p {
                            assert(!pixels@[k].is_white());
                            assert(hist_colors(prev).contains(pixels@[k]));
                            let u = choose|u: int|
                                0 <= u < hist_colors(prev).len() && hist_colors(prev)[u]
                                    == pixels@[k];
                            assert(prev[u].color == p);
                        }
                    }
                    lemma_count_color_zero(pixels@.take(i as int), p);
                    assert forall|u: int| 0 <= u < hist@.len() implies (#[trigger] hist@[u]).count
                        == count_color(pixels@.take(i + 1), hist@[u].color) by {
                        if u < hist@.len() - 1 {
                            assert(hist@[u] == prev[u]);
                            assert(hist@[u].color != p);
                        }
                    }
                }
            }
            proof {
                assert forall|k: int|
                    0 <= k < i + 1 && !(#[trigger] pixels@[k]).is_white() implies hist_colors(
                    hist@,
                ).contains(pixels@[k]) by {
                    if k < i {
                        let u = choose|u: int|
                            0 <= u < hist_colors(prev).len() && hist_colors(prev)[u] == pixels@[k];
                        assert(hist_colors(hist@)[u] == pixels@[k]);
                    } else {
                        if found {
                            assert(hist_colors(hist@)[t as int] == p);
                        } else {
                            assert(hist_colors(hist@)[hist@.len() - 1] == p);
                        }
                    }
                }
            }
        } else {
            proof {
                assert(pixels@[i as int].is_white());
                assert forall|u: int| 0 <= u < hist@.len() implies (#[trigger] hist@[u]).count
                    == count_color(pixels@.take(i + 1), hist@[u].color) by {
                    assert(hist@[u].color != pixels@[i as int]);
                }
            }
        }
        i = i + 1;
    }
    proof {
        assert(pixels@.take(pixels@.len() as int) =~= pixels@);
    }
    hist
}

/// One line of the color legend: a used color, its stitch count and its
/// floss number.
#[derive(Clone, Copy, Debug, PartialEq, Eq, Structural)]
pub struct ColorRecord {
    pub color: Rgb,
    pub count: u64,
    pub floss: u64,
}

/// Joins each histogram bar with its floss number from the catalog. Every
/// color must be a catalog color — in the composer pipeline they are, since
/// each pixel was snapped onto the catalog first.
pub fn with_floss(hist: &Vec<ColorCount>, catalog: &Catalog) -> (r: Vec<ColorRecord>)
    requires
        forall|t: int|
            0 <= t < hist@.len() ==> floss_lookup(
                catalog.entries@,
                (#[trigger] hist@[t]).color,
            ) is Some,
    ensures
        r@.len() == hist@.len(),
        forall|t: int|
            0 <= t < r@.len() ==> (#[trigger] r@[t]).color == hist@[t].color && r@[t].count
                == hist@[t].count && Some(r@[t].floss) == floss_lookup(
                catalog.entries@,
                hist@[t].color,
            ),
{
    let mut out: Vec<ColorRecord> = Vec::new();
    let mut t: usize = 0;
    while t < hist.len()
        invariant
            t <= hist@.len(),
            out@.len() == t,
            forall|u: int|
                0 <= u < hist@.len() ==> floss_lookup(
                    catalog.entries@,
                    (#[trigger] hist@[u]).color,
                ) is Some,
            forall|u: int|
                0 <= u < t ==> (#[trigger] out@[u]).color == hist@[u].color && out@[u].count
                    == hist@[u].count && Some(out@[u].floss) == floss_lookup(
                    catalog.entries@,
                    hist@[u].color,
                ),
        decreases hist@.len() - t,
    {
        let e = hist[t];
        // the precondition rules the second arm out: every histogram color
        // has a floss number
        let floss = match catalog.floss_of(e.color) {
            Some(f) => f,
            None => 0,
        };
        out.push(ColorRecord { color: e.color, count: e.count, floss });
        t = t + 1;
    }
    out
}

/// The legend order: records sorted by floss number, ascending.
pub open spec fn sorted_by_floss(r: Seq<ColorRecord>) -> bool {
    forall|t1: int, t2: int| 0 <= t1 <= t2 < r.len() ==> (#[trigger] r[t1]).floss <= (
    #[trigger] r[t2]).floss
}

/// Sorts the legend records by floss number, ascending. The result holds
/// exactly the given records.
pub fn sort_by_floss(records: &Vec<ColorRecord>) -> (r: Vec<ColorRecord>)
    ensures
        r@.len() == records@.len(),
        r@.to_multiset() == records@.to_multiset(),
        sorted_by_floss(r@),
{
    let mut out: Vec<ColorRecord> = Vec::new();
    let mut i: usize = 0;
    proof {
        assert(records@.take(0) =~= Seq::<ColorRecord>::empty());
    }
    while i < records.len()
        invariant
            i <= records@.len(),
            out@.len() == i,
            out@.to_multiset() == records@.take(i as int).to_multiset(),
            sorted_by_floss(out@),
        decreases records@.len() - i,
    {
        let v = records[i];
        let mut pos: usize = 0;
        while pos < out.len() && out[pos].floss <= v.floss
            invariant
                pos <= out@.len(),
                forall|u: int| 0 <= u < pos ==> (#[trigger] out@[u]).floss <= v.floss,
            decreases out@.len() - pos,
        {
            pos = pos + 1;
        }
        let ghost prev = out@;
        out.insert(pos, v);
        proof {
            prev.insert_ensures(pos as int, v);
            assert(records@.take(i + 1).drop_last() =~= records@.take(i as int));
            assert(records@.take(i + 1).last() == records@[i as int]);
            assert(records@.take(i + 1).to_multiset() == records@.take(
                i as int,
            ).to_multiset().insert(v)) by {
                assert(records@.take(i + 1) =~= records@.take(i as int).push(v));
            }
            assert forall|t1: int, t2: int| 0 <= t1 <= t2 < out@.len() implies (
            #[trigger] out@[t1]).floss <= (#[trigger] out@[t2]).floss by {
                if t1 < pos && t2 == pos {
                    assert(out@[t1] == prev[t1]);
                } else if t1 == pos && t2 > pos {
                    assert(out@[t2] == prev[t2 - 1]);
                    if pos < prev.len() {
                        assert(prev[pos as int].floss > v.floss);
                    }
                }
            }
        }
        i = i + 1;
    }
    proof {
        assert(records@.take(records@.len() as int) =~= records@);
    }
    out
}

/// The pattern raster a decoded image snaps to, pixel by pixel.
pub open spec fn snapped_seq(pixels: Seq<Rgba>, entries: Seq<CatalogEntry>) -> Seq<Rgb> {
    pixels.map_values(|p: Rgba| snapped_pixel(p, entries))
}

/// The distinct colors that receive stitches: every non-background color
/// of the pattern raster.
pub open spec fn used_colors(pixels: Seq<Rgb>) -> Set<Rgb>
    decreases pixels.len(),
{
    if pixels.len() == 0 {
        Set::empty()
    } else {
        let rest = used_colors(pixels.drop_last());
        if pixels.last().is_white() {
            rest
        } else {
            rest.insert(pixels.last())
        }
    }
}

/// The used colors form a finite set.
pub proof fn lemma_used_colors_finite(pixels: Seq<Rgb>)
    ensures
        used_colors(pixels).finite(),
    decreases pixels.len(),
{
    if pixels.len() > 0 {
        lemma_used_colors_finite(pixels.drop_last());
    }
}

/// A color is used exactly when some pixel has it and it is not the
/// background.
pub proof fn lemma_used_colors_iff(pixels: Seq<Rgb>, c: Rgb)
    ensures
        used_colors(pixels).contains(c) <==> (!c.is_white() && exists|j: int|
            0 <= j < pixels.len() && #[trigger] pixels[j] == c),
    decreases pixels.len(),
{
    if pixels.len() > 0 {
        let sub = pixels.drop_last();
        lemma_used_colors_iff(sub, c);
        assert(forall|j: int| 0 <= j < sub.len() ==> #[trigger] sub[j] == pixels[j]);
        if used_colors(pixels).contains(c) {
            if pixels.last().is_white() || c != pixels.last() {
                let j = choose|j: int| 0 <= j < sub.len() && #[trigger] sub[j] == c;
                assert(pixels[j] == c);
            } else {
                assert(pixels[pixels.len() - 1] == c);
            }
        }
        if !c.is_white() && exists|j: int| 0 <= j < pixels.len() && #[trigger] pixels[j] == c {
            let j = choose|j: int| 0 <= j < pixels.len() && #[trigger] pixels[j] == c;
            if j < pixels.len() - 1 {
                assert(sub[j] == c);
            } else {
                assert(pixels.last() == c);
            }
        }
    }
}

/// A positive color count means the color occurs.
proof fn lemma_count_positive_occurs(pixels: Seq<Rgb>, c: Rgb)
    requires
        count_color(pixels, c) > 0,
    ensures
        exists|j: int| 0 <= j < pixels.len() && #[trigger] pixels[j] == c,
    decreases pixels.len(),
{
    if pixels.last() == c {
        assert(pixels[pixels.len() - 1] == c);
    } else {
        lemma_count_positive_occurs(pixels.drop_last(), c);
        let j = choose|j: int|
            0 <= j < pixels.drop_last().len() && #[trigger] pixels.drop_last()[j] == c;
        assert(pixels[j] == c);
    }
}

/// Every color of a catalog entry has a floss number in the catalog.
proof fn lemma_entry_color_has_floss(entries: Seq<CatalogEntry>, c: Rgb)
    requires
        exists|k: int| 0 <= k < entries.len() && (#[trigger] entries[k]).color == c,
    ensures
        floss_lookup(entries, c) is Some,
    decreases entries.len(),
{
    if entries.last().color != c {
        let k = choose|k: int| 0 <= k < entries.len() && (#[trigger] entries[k]).color == c;
        assert(entries.drop_last()[k] == entries[k]);
        lemma_entry_color_has_floss(entries.drop_last(), c);
    }
}

/// The legend of the pattern: the image's pixels snapped onto the catalog,
/// their distinct non-background colors counted, numbered by floss, and put
/// in floss order — the color at position `i` of the result receives the
/// `i`-th symbol of the alphabet. A pattern with more used colors than the
/// alphabet holds cannot be charted, and yields nothing.
pub fn legend(pixels: &Vec<Rgba>, catalog: &Catalog) -> (r: Option<Vec<ColorRecord>>)
    requires
        catalog.entries@.len() > 0,
    ensures
        ({
            let snapped = snapped_seq(pixels@, catalog.entries@);
            match r {
                Some(records) => {
                    &&& records@.len() == used_colors(snapped).len()
                    &&& records@.len() <= 200
                    &&& sorted_by_floss(records@)
                    &&& forall|t: int|
                        0 <= t < records@.len() ==> used_colors(snapped).contains(
                            (#[trigger] records@[t]).color,
                        ) && records@[t].count == count_color(snapped, records@[t].color) && Some(
                            records@[t].floss,
                        ) == floss_lookup(catalog.entries@, records@[t].color)
                    &&& forall|t1: int, t2: int|
                        0 <= t1 < t2 < records@.len() ==> (#[trigger] records@[t1]).color != (
                        #[trigger] records@[t2]).color
                    &&& forall|c: Rgb|
                        used_colors(snapped).contains(c) ==> exists|t: int|
                            0 <= t < records@.len() && (#[trigger] records@[t]).color == c
                },
                None => used_colors(snapped).len() > 200,
            }
        }),
{
    broadcast use vstd::seq_lib::group_to_multiset_ensures;

    let ghost snapped_spec = snapped_seq(pixels@, catalog.entries@);
    let snapped = recolor(pixels, catalog);
    proof {
        assert(snapped@ =~= snapped_spec);
    }
    let hist = histogram(&snapped);
    let ghost hc = hist_colors(hist@);
    proof {
        assert(forall|t: int| 0 <= t < hc.len() ==> #[trigger] hc[t] == hist@[t].color);
        assert(hc.no_duplicates());
        hc.unique_seq_to_set();
        assert forall|c: Rgb| hc.to_set().contains(c) implies used_colors(snapped@).contains(
            c,
        ) by {
            let t = choose|t: int| 0 <= t < hc.len() && hc[t] == c;
            lemma_count_positive_occurs(snapped@, c);
            lemma_used_colors_iff(snapped@, c);
        }
        assert forall|c: Rgb| used_colors(snapped@).contains(c) implies hc.to_set().contains(
            c,
        ) by {
            lemma_used_colors_iff(snapped@, c);
            let j = choose|j: int| 0 <= j < snapped@.len() && #[trigger] snapped@[j] == c;
            assert(hc.contains(snapped@[j]));
        }
        assert(hc.to_set() =~= used_colors(snapped@));
        lemma_used_colors_finite(snapped@);
    }
    if hist.len() > 200 {
        return None;
    }
    proof {
        // every histogram color is a catalog color, so it has a floss number
        assert forall|t: int| 0 <= t < hist@.len() implies floss_lookup(
            catalog.entries@,
            (#[trigger] hist@[t]).color,
        ) is Some by {
            let c = hist@[t].color;
            lemma_count_positive_occurs(snapped@, c);
            let j = choose|j: int| 0 <= j < snapped@.len() && #[trigger] snapped@[j] == c;
            assert(snapped@[j] == snapped_pixel(pixels@[j], catalog.entries@));
            lemma_nearest_in_first_min(catalog.entries@, pixels@[j].rgb_spec());
            let k = nearest_in(catalog.entries@, pixels@[j].rgb_spec());
            assert(catalog.entries@[k].color == c);
            lemma_entry_color_has_floss(catalog.entries@, c);
        }
    }
    let records = with_floss(&hist, catalog);
    let sorted = sort_by_floss(&records);
    proof {
        assert(records@.no_duplicates());
        records@.lemma_multiset_has_no_duplicates();
        sorted@.lemma_multiset_has_no_duplicates_conv();
        assert forall|t: int| 0 <= t < sorted@.len() implies used_colors(snapped@).contains(
            (#[trigger] sorted@[t]).color,
        ) && sorted@[t].count == count_color(snapped@, sorted@[t].color) && Some(sorted@[t].floss)
            == floss_lookup(catalog.entries@, sorted@[t].color) by {
            assert(sorted@.contains(sorted@[t]));
            assert(records@.to_multiset().contains(sorted@[t]));
            assert(records@.contains(sorted@[t]));
            let u = choose|u: int| 0 <= u < records@.len() && records@[u] == sorted@[t];
            assert(hc[u] == hist@[u].color);
            assert(hc.to_set().contains(hc[u]));
        }
        assert forall|t1: int, t2: int| 0 <= t1 < t2 < sorted@.len() implies (
        #[trigger] sorted@[t1]).color != (#[trigger] sorted@[t2]).color by {
            if sorted@[t1].color == sorted@[t2].color {
                assert(sorted@[t1] == sorted@[t2]);
            }
        }
        assert forall|c: Rgb| used_colors(snapped@).contains(c) implies exists|t: int|
            0 <= t < sorted@.len() && (#[trigger] sorted@[t]).color == c by {
            assert(hc.to_set().contains(c));
            let u = choose|u: int| 0 <= u < hc.len() && hc[u] == c;
            assert(records@[u].color == c);
            assert(records@.contains(records@[u]));
            assert(sorted@.to_multiset().contains(records@[u]));
            assert(sorted@.contains(records@[u]));
            let t = choose|t: int| 0 <= t < sorted@.len() && sorted@[t] == records@[u];
            assert(sorted@[t].color == c);
        }
    }
    Some(sorted)
}

/// Chooses the font of each symbol glyph from the per-glyph font coverage:
/// `coverage[s][f]` says whether font `f` of the fixed font list can render
/// symbol `s`. The first font that contains the glyph wins; a glyph no font
/// contains gets none.
pub fn select_symbol_fonts(coverage: &Vec<Vec<bool>>) -> (r: Vec<Option<usize>>)
    ensures
        r@.len() == coverage@.len(),
        forall|s: int|
            0 <= s < r@.len() ==> match #[trigger] r@[s] {
                Some(f) => f < coverage@[s]@.len() && coverage@[s]@[f as int] && (forall|g: int|
                    0 <= g < f ==> !coverage@[s]@[g]),
                None => forall|g: int| 0 <= g < coverage@[s]@.len() ==> !coverage@[s]@[g],
            },
{
    let mut out: Vec<Option<usize>> = Vec::new();
    let mut s: usize = 0;
    while s < coverage.len()
        invariant
            s <= coverage@.len(),
            out@.len() == s,
            forall|s2: int|
                0 <= s2 < s ==> match #[trigger] out@[s2] {
                    Some(f) => f < coverage@[s2]@.len() && coverage@[s2]@[f as int] && (forall|
                        g: int,
                    | 0 <= g < f ==> !coverage@[s2]@[g]),
                    None => forall|g: int| 0 <= g < coverage@[s2]@.len() ==> !coverage@[s2]@[g],
                },
        decreases coverage@.len() - s,
    {
        let fonts = &coverage[s];
        let mut f: usize = 0;
        let mut chosen: Option<usize> = None;
        while f < fonts.len() && chosen.is_none()
            invariant
                f <= fonts@.len(),
                fonts@ == coverage@[s as int]@,
                match chosen {
                    Some(g) => g == f && f < fonts@.len() && fonts@[g as int] && (forall|g2: int|
                        0 <= g2 < g ==> !fonts@[g2]),
                    None => forall|g: int| 0 <= g < f ==> !fonts@[g],
                },
            decreases fonts@.len() - f + if chosen.is_none() {
                1int
            } else {
                0int
            },
        {
            if fonts[f] {
                chosen = Some(f);
            } else {
                f = f + 1;
            }
        }
        out.push(chosen);
        s = s + 1;
    }
    out
}

} // verus!
