//! The DMC floss catalog: construction from the parsed catalog records,
//! floss lookup by sRGB color (duplicate colors: last record wins), and the
//! nearest-entry search in CIE-Lab distance used to snap pattern colors onto
//! the catalog.

use vstd::prelude::*;

use palette::chromatic_adaptation::AdaptFrom;
use palette::color_difference::EuclideanDistance;

use crate::assign::argmin_first;

verus! {

/// An 8-bit sRGB color.
#[derive(Clone, Copy, Debug, PartialEq, Eq, Hash, Structural)]
pub struct Rgb {
    pub r: u8,
    pub g: u8,
    pub b: u8,
}

impl Rgb {
    /// The background color: pixels of this color receive no stitch.
    pub open spec fn is_white(self) -> bool {
        self.r == 255 && self.g == 255 && self.b == 255
    }

    /// The background color as a value.
    pub fn white() -> (c: Rgb)
        ensures
            c.is_white(),
            c == (Rgb { r: 255, g: 255, b: 255 }),
    {
        Rgb { r: 255, g: 255, b: 255 }
    }
}

/// The comparison key of the perceptual distance between two sRGB colors:
/// the squared Euclidean distance between their CIE-Lab (D65) forms, as the
/// bit pattern of the non-negative 64-bit float, which orders exactly as the
/// distance itself. The distance is a function of the two colors alone.
pub uninterp spec fn lab_dist_key_of(r1: u8, g1: u8, b1: u8, r2: u8, g2: u8, b2: u8) -> u64;

/// Relies on the palette crate: `Srgb::new(..).into_format()` and
/// `Lab::<D65, _>::adapt_from` convert an 8-bit sRGB color to CIE-Lab under
/// the D65 white point, and `EuclideanDistance::distance_squared` is the sum
/// of the squared component differences. Wrapping the distance in
/// `printpdf::Mm` pins the component type to that of a document coordinate,
/// the double-width float, whose bit pattern is taken as the key. Equal
/// inputs give the distance zero, whose bit pattern is zero.
#[verifier::external_body]
fn lab_dist_key(c1: Rgb, c2: Rgb) -> (k: u64)
    ensures
        k == lab_dist_key_of(c1.r, c1.g, c1.b, c2.r, c2.g, c2.b),
        c1 == c2 ==> k == 0,
{
    let l1 = palette::Lab::<palette::white_point::D65, _>::adapt_from(
        palette::rgb::Srgb::new(c1.r, c1.g, c1.b).into_format(),
    );
    let l2 = palette::Lab::<palette::white_point::D65, _>::adapt_from(
        palette::rgb::Srgb::new(c2.r, c2.g, c2.b).into_format(),
    );
    printpdf::Mm(l1.distance_squared(l2)).0.to_bits()
}

/// One floss color of the catalog.
#[derive(Clone, Copy, Debug, PartialEq, Eq, Structural)]
pub struct CatalogEntry {
    pub floss: u64,
    pub color: Rgb,
}

/// The distance key between a color and a catalog entry's color.
pub open spec fn dist_key(c: Rgb, e: CatalogEntry) -> u64 {
    lab_dist_key_of(c.r, c.g, c.b, e.color.r, e.color.g, e.color.b)
}

/// Index of the catalog entry nearest to `c`, the earliest on ties: the
/// last entry displaces the best of the rest only when strictly nearer.
pub open spec fn nearest_in(entries: Seq<CatalogEntry>, c: Rgb) -> int
    decreases entries.len(),
{
    if entries.len() <= 1 {
        0
    } else {
        let prev = nearest_in(entries.drop_last(), c);
        if dist_key(c, entries.last()) < dist_key(c, entries[prev]) {
            entries.len() - 1
        } else {
            prev
        }
    }
}

/// `nearest_in` names the first index of minimal distance key.
pub proof fn lemma_nearest_in_first_min(entries: Seq<CatalogEntry>, c: Rgb)
    requires
        entries.len() > 0,
    ensures
        0 <= nearest_in(entries, c) < entries.len(),
        forall|j: int|
            0 <= j < entries.len() ==> dist_key(c, entries[nearest_in(entries, c)]) <= dist_key(
                c,
                #[trigger] entries[j],
            ),
        forall|j: int|
            0 <= j < nearest_in(entries, c) ==> dist_key(c, entries[nearest_in(entries, c)])
                < dist_key(c, #[trigger] entries[j]),
    decreases entries.len(),
{
    if entries.len() > 1 {
        let sub = entries.drop_last();
        lemma_nearest_in_first_min(sub, c);
        let prev = nearest_in(sub, c);
        let ni = nearest_in(entries, c);
        assert(forall|j: int| 0 <= j < sub.len() ==> #[trigger] sub[j] == entries[j]);
        assert(entries.last() == entries[entries.len() - 1]);
        if dist_key(c, entries.last()) < dist_key(c, entries[prev]) {
            assert(ni == entries.len() - 1);
            assert forall|j: int| 0 <= j < entries.len() implies dist_key(c, entries[ni])
                <= dist_key(c, #[trigger] entries[j]) by {
                if j < entries.len() - 1 {
                    assert(dist_key(c, sub[prev]) <= dist_key(c, sub[j]));
                }
            }
            assert forall|j: int| 0 <= j < ni implies dist_key(c, entries[ni]) < dist_key(
                c,
                #[trigger] entries[j],
            ) by {
                assert(dist_key(c, sub[prev]) <= dist_key(c, sub[j]));
            }
        } else {
            assert(ni == prev);
            assert forall|j: int| 0 <= j < entries.len() implies dist_key(c, entries[ni])
                <= dist_key(c, #[trigger] entries[j]) by {
                if j < entries.len() - 1 {
                    assert(dist_key(c, sub[prev]) <= dist_key(c, sub[j]));
                }
            }
            assert forall|j: int| 0 <= j < ni implies dist_key(c, entries[ni]) < dist_key(
                c,
                #[trigger] entries[j],
            ) by {
                assert(dist_key(c, sub[prev]) < dist_key(c, sub[j]));
            }
        }
    }
}

/// The catalog records that carry a floss number, in file order.
pub open spec fn kept_entries(records: Seq<(Option<u64>, Rgb)>) -> Seq<CatalogEntry>
    decreases records.len(),
{
    if records.len() == 0 {
        Seq::empty()
    } else {
        kept_entries(records.drop_last()) + if records.last().0 is Some {
            seq![CatalogEntry { floss: records.last().0->0, color: records.last().1 }]
        } else {
            Seq::empty()
        }
    }
}

/// The floss number of a color: the last catalog entry of that exact color
/// wins, as when the records are poured into a map.
pub open spec fn floss_lookup(entries: Seq<CatalogEntry>, c: Rgb) -> Option<u64>
    decreases entries.len(),
{
    if entries.len() == 0 {
        None
    } else if entries.last().color == c {
        Some(entries.last().floss)
    } else {
        floss_lookup(entries.drop_last(), c)
    }
}

/// The fixed table of embroidery floss colors.
pub struct Catalog {
    pub entries: Vec<CatalogEntry>,
}

impl Catalog {
    /// Builds the catalog from parsed records `(floss, color)`. Records
    /// without a floss number are dropped; the rest keep their order.
    pub fn from_records(records: &Vec<(Option<u64>, Rgb)>) -> (r: Catalog)
        ensures
            r.entries@ == kept_entries(records@),
    {
        let mut entries: Vec<CatalogEntry> = Vec::new();
        let mut i: usize = 0;
        while i < records.len()
            invariant
                i <= records@.len(),
                entries@ == kept_entries(records@.take(i as int)),
            decreases records@.len() - i,
        {
            let rec = records[i];
            proof {
                assert(records@.take(i + 1).drop_last() =~= records@.take(i as int));
                assert(records@.take(i + 1).last() == records@[i as int]);
            }
            match rec.0 {
                Some(floss) => {
                    entries.push(CatalogEntry { floss, color: rec.1 });
                },
                None => {},
            }
            i = i + 1;
        }
        proof {
            assert(records@.take(records@.len() as int) =~= records@);
        }
        Catalog { entries }
    }

    /// Number of catalog entries.
    pub fn len(&self) -> (r: usize)
        ensures
            r == self.entries@.len(),
    {
        self.entries.len()
    }

    /// The floss number of a color, when some entry has exactly that color;
    /// among duplicates the last entry wins.
    pub fn floss_of(&self, c: Rgb) -> (r: Option<u64>)
        ensures
            r == floss_lookup(self.entries@, c),
    {
        let mut i: usize = self.entries.len();
        proof {
            assert(self.entries@.take(self.entries@.len() as int) =~= self.entries@);
        }
        while i > 0
            invariant
                i <= self.entries@.len(),
                floss_lookup(self.entries@.take(i as int), c) == floss_lookup(self.entries@, c),
            decreases i,
        {
            i = i - 1;
            proof {
                assert(self.entries@.take(i + 1).drop_last() =~= self.entries@.take(i as int));
                assert(self.entries@.take(i + 1).last() == self.entries@[i as int]);
            }
            if self.entries[i].color == c {
                return Some(self.entries[i].floss);
            }
        }
        proof {
            assert(self.entries@.take(0) =~= Seq::<CatalogEntry>::empty());
        }
        None
    }

    /// Index of the catalog entry whose color is nearest to `c` in Lab
    /// distance; the earliest entry wins a tie.
    pub fn nearest(&self, c: Rgb) -> (r: usize)
        requires
            self.entries@.len() > 0,
        ensures
            r < self.entries@.len(),
            r == nearest_in(self.entries@, c),
            forall|j: int|
                0 <= j < self.entries@.len() ==> dist_key(c, self.entries@[r as int]) <= dist_key(
                    c,
                    #[trigger] self.entries@[j],
                ),
            forall|j: int|
                0 <= j < r ==> dist_key(c, self.entries@[r as int]) < dist_key(
                    c,
                    #[trigger] self.entries@[j],
                ),
    {
        let mut keys: Vec<u64> = Vec::new();
        let mut i: usize = 0;
        while i < self.entries.len()
            invariant
                i <= self.entries@.len(),
                keys@.len() == i,
                forall|j: int| 0 <= j < i ==> #[trigger] keys@[j] == dist_key(c, self.entries@[j]),
            decreases self.entries@.len() - i,
        {
            keys.push(lab_dist_key(c, self.entries[i].color));
            i = i + 1;
        }
        let r = argmin_first(&keys);
        proof {
            assert forall|j: int| 0 <= j < self.entries@.len() implies dist_key(
                c,
                self.entries@[r as int],
            ) <= dist_key(c, #[trigger] self.entries@[j]) by {
                assert(keys@[r as int] <= keys@[j]);
            }
            assert forall|j: int| 0 <= j < r implies dist_key(c, self.entries@[r as int])
                < dist_key(c, #[trigger] self.entries@[j]) by {
                assert(keys@[r as int] < keys@[j]);
            }
            lemma_nearest_in_first_min(self.entries@, c);
            let ni = nearest_in(self.entries@, c);
            if (r as int) < ni {
                assert(dist_key(c, self.entries@[ni]) < dist_key(c, self.entries@[r as int]));
                assert(dist_key(c, self.entries@[r as int]) <= dist_key(c, self.entries@[ni]));
                assert(false);
            } else if ni < r as int {
                assert(dist_key(c, self.entries@[r as int]) < dist_key(c, self.entries@[ni]));
                assert(dist_key(c, self.entries@[ni]) <= dist_key(c, self.entries@[r as int]));
                assert(false);
            }
        }
        r
    }
}

} // verus!
