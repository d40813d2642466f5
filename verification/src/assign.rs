//! Assignment of input pixels to superpixels: deterministic argmin and
//! argmax selection, the scatter that turns per-pixel choices into each
//! superpixel's owned-pixel list, and the integer position updates
//! (owned-pixel mean and Laplacian smoothing of centers).

use vstd::prelude::*;

use crate::geometry::{in_bounds, index_of, lemma_index_of_in_range, window4_spec, Coord, Size};
use crate::geometry::{lemma_mul_le, window4};

verus! {

/// Index of the first minimum of a non-empty list of cost keys. Later
/// candidates replace the best one only when strictly cheaper, so ties keep
/// the earliest candidate.
pub fn argmin_first(keys: &Vec<u64>) -> (r: usize)
    requires
        keys@.len() > 0,
    ensures
        r < keys@.len(),
        forall|j: int| 0 <= j < keys@.len() ==> keys@[r as int] <= #[trigger] keys@[j],
        forall|j: int| 0 <= j < r ==> keys@[r as int] < #[trigger] keys@[j],
{
    let mut best: usize = 0;
    let mut i: usize = 1;
    while i < keys.len()
        invariant
            keys@.len() > 0,
            best < i <= keys@.len(),
            forall|j: int| 0 <= j < i ==> keys@[best as int] <= #[trigger] keys@[j],
            forall|j: int| 0 <= j < best ==> keys@[best as int] < #[trigger] keys@[j],
        decreases keys@.len() - i,
    {
        if keys[i] < keys[best] {
            best = i;
        }
        i = i + 1;
    }
    best
}

/// Index of the first maximum of a non-empty list of keys. Ties keep the
/// earliest entry.
pub fn argmax_first(keys: &Vec<u64>) -> (r: usize)
    requires
        keys@.len() > 0,
    ensures
        r < keys@.len(),
        forall|j: int| 0 <= j < keys@.len() ==> keys@[r as int] >= #[trigger] keys@[j],
        forall|j: int| 0 <= j < r ==> keys@[r as int] > #[trigger] keys@[j],
{
    let mut best: usize = 0;
    let mut i: usize = 1;
    while i < keys.len()
        invariant
            keys@.len() > 0,
            best < i <= keys@.len(),
            forall|j: int| 0 <= j < i ==> keys@[best as int] >= #[trigger] keys@[j],
            forall|j: int| 0 <= j < best ==> keys@[best as int] > #[trigger] keys@[j],
        decreases keys@.len() - i,
    {
        if keys[i] > keys[best] {
            best = i;
        }
        i = i + 1;
    }
    best
}

/// The scatter of pixel indices into superpixel buckets is faithful to the
/// per-pixel choices: every listed pixel was chosen for that bucket, the
/// lists are strictly increasing, and every pixel appears in its chosen
/// bucket.
pub open spec fn scatter_post(choices: Seq<usize>, buckets: Seq<Seq<usize>>, n_cells: int) -> bool {
    &&& buckets.len() == n_cells
    &&& forall|c: int, j: int|
        0 <= c < n_cells && 0 <= j < buckets[c].len() ==> #[trigger] buckets[c][j] < choices.len()
            && choices[buckets[c][j] as int] == c
    &&& forall|c: int, j1: int, j2: int|
        0 <= c < n_cells && 0 <= j1 < j2 < buckets[c].len() ==> #[trigger] buckets[c][j1]
            < #[trigger] buckets[c][j2]
    &&& forall|i: int|
        0 <= i < choices.len() ==> #[trigger] buckets[choices[i] as int].contains(i as usize)
}

/// Builds each superpixel's owned-pixel list from the per-pixel choice of
/// superpixel: pixel `i` goes to bucket `choices[i]`, in scan order.
pub fn scatter(choices: &Vec<usize>, n_cells: usize) -> (buckets: Vec<Vec<usize>>)
    requires
        forall|i: int| 0 <= i < choices@.len() ==> #[trigger] choices@[i] < n_cells,
    ensures
        scatter_post(choices@, buckets@.map_values(|b: Vec<usize>| b@), n_cells as int),
{
    let ghost bview = |b: Vec<usize>| b@;
    let mut buckets: Vec<Vec<usize>> = Vec::new();
    let mut c: usize = 0;
    while c < n_cells
        invariant
            buckets@.len() == c <= n_cells,
            forall|k: int| 0 <= k < c ==> #[trigger] buckets@[k]@.len() == 0,
        decreases n_cells - c,
    {
        buckets.push(Vec::new());
        c = c + 1;
    }
    let mut i: usize = 0;
    while i < choices.len()
        invariant
            i <= choices@.len(),
            buckets@.len() == n_cells,
            forall|k: int| 0 <= k < choices@.len() ==> #[trigger] choices@[k] < n_cells,
            forall|cc: int, j: int|
                0 <= cc < n_cells && 0 <= j < buckets@[cc]@.len() ==> #[trigger] buckets@[cc]@[j]
                    < i && choices@[buckets@[cc]@[j] as int] == cc,
            forall|cc: int, j1: int, j2: int|
                0 <= cc < n_cells && 0 <= j1 < j2 < buckets@[cc]@.len()
                    ==> #[trigger] buckets@[cc]@[j1] < #[trigger] buckets@[cc]@[j2],
            forall|k: int|
                0 <= k < i ==> #[trigger] buckets@[choices@[k] as int]@.contains(k as usize),
        decreases choices@.len() - i,
    {
        let c = choices[i];
        let ghost prev = buckets@;
        buckets[c].push(i);
        proof {
            assert(buckets@[c as int]@ == prev[c as int]@ + seq![i]);
            assert(buckets@ =~= prev.update(c as int, buckets@[c as int]));
            assert(buckets@[choices@[i as int] as int]@.contains(i as usize)) by {
                let b = buckets@[c as int]@;
                assert(b[b.len() - 1] == i);
            }
            assert forall|k: int|
                0 <= k < i + 1 implies #[trigger] buckets@[choices@[k] as int]@.contains(
                k as usize,
            ) by {
                if k < i {
                    let cc = choices@[k] as int;
                    assert(prev[cc]@.contains(k as usize));
                    let idx = choose|j: int| 0 <= j < prev[cc]@.len() && prev[cc]@[j] == k as usize;
                    if cc == c {
                        assert(buckets@[cc]@[idx] == k as usize);
                    } else {
                        assert(buckets@[cc]@ == prev[cc]@);
                    }
                }
            }
        }
        i = i + 1;
    }
    proof {
        assert forall|k: int|
            0 <= k < choices@.len() implies #[trigger] buckets@.map_values(bview)[choices@[k]
            as int].contains(k as usize) by {
            assert(buckets@[choices@[k] as int]@.contains(k as usize));
            assert(buckets@.map_values(bview)[choices@[k] as int] == buckets@[choices@[k] as int]@);
        }
        assert(scatter_post(choices@, buckets@.map_values(bview), n_cells as int));
    }
    buckets
}

/// The owned-pixel lists of a scatter are a partition of the input pixels:
/// every pixel lies in exactly one bucket — the buckets are pairwise
/// disjoint and together cover every pixel index.
pub proof fn lemma_scatter_partitions(choices: Seq<usize>, buckets: Seq<Seq<usize>>, n_cells: int)
    requires
        scatter_post(choices, buckets, n_cells),
        forall|i: int| 0 <= i < choices.len() ==> #[trigger] choices[i] < n_cells,
    ensures
        forall|i: int|
            0 <= i < choices.len() ==> 0 <= #[trigger] choices[i] < n_cells && buckets[choices[i]
                as int].contains(i as usize),
        forall|c1: int, c2: int, p: usize|
            0 <= c1 < n_cells && 0 <= c2 < n_cells && #[trigger] buckets[c1].contains(p)
                && #[trigger] buckets[c2].contains(p) ==> c1 == c2,
        forall|c: int, p: usize|
            0 <= c < n_cells && #[trigger] buckets[c].contains(p) ==> p < choices.len(),
{
    assert forall|c1: int, c2: int, p: usize|
        0 <= c1 < n_cells && 0 <= c2 < n_cells && #[trigger] buckets[c1].contains(p)
            && #[trigger] buckets[c2].contains(p) implies c1 == c2 by {
        let j1 = choose|j: int| 0 <= j < buckets[c1].len() && buckets[c1][j] == p;
        let j2 = choose|j: int| 0 <= j < buckets[c2].len() && buckets[c2][j] == p;
        assert(choices[p as int] == c1);
        assert(choices[p as int] == c2);
    }
}

/// Sum of the x components of the coordinates of a list of row-major pixel
/// indices, in a raster of width `w`.
pub open spec fn sum_x(owned: Seq<usize>, w: int) -> int
    decreases owned.len(),
{
    if owned.len() == 0 {
        0
    } else {
        sum_x(owned.drop_last(), w) + owned.last() as int % w
    }
}

/// Sum of the y components, as `sum_x`.
pub open spec fn sum_y(owned: Seq<usize>, w: int) -> int
    decreases owned.len(),
{
    if owned.len() == 0 {
        0
    } else {
        sum_y(owned.drop_last(), w) + owned.last() as int / w
    }
}

proof fn lemma_sum_bounds(owned: Seq<usize>, in_size: Size)
    requires
        in_size.x > 0,
        forall|j: int| 0 <= j < owned.len() ==> #[trigger] owned[j] < in_size.area(),
    ensures
        0 <= sum_x(owned, in_size.x as int) <= owned.len() * (in_size.x - 1),
        0 <= sum_y(owned, in_size.x as int) <= owned.len() * (in_size.y - 1),
    decreases owned.len(),
{
    let w = in_size.x as int;
    if owned.len() > 0 {
        lemma_sum_bounds(owned.drop_last(), in_size);
        assert(owned.last() as int % w <= w - 1) by (nonlinear_arith)
            requires
                w > 0,
        ;
        assert(owned.last() as int / w <= in_size.y - 1) by (nonlinear_arith)
            requires
                w > 0,
                in_size.y >= 0,
                0 <= owned.last() as int,
                (owned.last() as int) < w * (in_size.y as int),
        ;
        assert((owned.len() - 1) * (w - 1) + (w - 1) == owned.len() * (w - 1)) by (nonlinear_arith);
        assert((owned.len() - 1) * (in_size.y - 1) + (in_size.y - 1) == owned.len() * (in_size.y
            - 1)) by (nonlinear_arith);
    }
}

/// The center a superpixel takes from its owned pixels: the floored mean of
/// their coordinates, or the fallback seed position when it owns none.
pub open spec fn bucket_center(owned: Seq<usize>, fallback: Coord, in_size: Size) -> Coord {
    if owned.len() == 0 {
        fallback
    } else {
        Coord {
            x: (sum_x(owned, in_size.x as int) / owned.len() as int) as u32,
            y: (sum_y(owned, in_size.x as int) / owned.len() as int) as u32,
        }
    }
}

/// The integer mean position of a superpixel's owned pixels; an empty
/// superpixel falls back to its original seed position.
pub fn center_of(owned: &Vec<usize>, in_size: Size, fallback: Coord) -> (r: Coord)
    requires
        in_size.x > 0,
        in_size.y > 0,
        owned@.len() <= u32::MAX,
        forall|j: int| 0 <= j < owned@.len() ==> #[trigger] owned@[j] < in_size.area(),
        in_bounds(fallback, in_size),
    ensures
        r == bucket_center(owned@, fallback, in_size),
        in_bounds(r, in_size),
{
    if owned.len() == 0 {
        return fallback;
    }
    let mut sx: u64 = 0;
    let mut sy: u64 = 0;
    let mut j: usize = 0;
    proof {
        lemma_sum_bounds(owned@, in_size);
        lemma_mul_le(owned@.len() as int, in_size.x - 1, u32::MAX as int, u32::MAX as int);
        lemma_mul_le(owned@.len() as int, in_size.y - 1, u32::MAX as int, u32::MAX as int);
    }
    while j < owned.len()
        invariant
            j <= owned@.len(),
            owned@.len() <= u32::MAX,
            in_size.x > 0,
            in_size.y > 0,
            forall|k: int| 0 <= k < owned@.len() ==> #[trigger] owned@[k] < in_size.area(),
            sx == sum_x(owned@.take(j as int), in_size.x as int),
            sy == sum_y(owned@.take(j as int), in_size.x as int),
            sx <= j * (in_size.x - 1),
            sy <= j * (in_size.y - 1),
        decreases owned@.len() - j,
    {
        let idx = owned[j];
        let c = in_size.idx_to_coord(idx);
        proof {
            lemma_sum_bounds(owned@.take(j as int), in_size);
            assert(owned@.take(j + 1).drop_last() =~= owned@.take(j as int));
            assert(owned@.take(j + 1).last() == owned@[j as int]);
            lemma_mul_le(j + 1, in_size.x - 1, u32::MAX as int, u32::MAX as int);
            lemma_mul_le(j + 1, in_size.y - 1, u32::MAX as int, u32::MAX as int);
            assert(j * (in_size.x - 1) + (in_size.x - 1) == (j + 1) * (in_size.x - 1))
                by (nonlinear_arith);
            assert(j * (in_size.y - 1) + (in_size.y - 1) == (j + 1) * (in_size.y - 1))
                by (nonlinear_arith);
        }
        sx = sx + c.x as u64;
        sy = sy + c.y as u64;
        j = j + 1;
    }
    proof {
        assert(owned@.take(owned@.len() as int) =~= owned@);
        let n = owned@.len() as int;
        let w = in_size.x as int;
        let h = in_size.y as int;
        assert(sum_x(owned@, w) / n <= (n * (w - 1)) / n && (n * (w - 1)) / n == w - 1)
            by (nonlinear_arith)
            requires
                n > 0,
                w > 0,
                0 <= sum_x(owned@, w) <= n * (w - 1),
        ;
        assert(sum_y(owned@, w) / n <= (n * (h - 1)) / n && (n * (h - 1)) / n == h - 1)
            by (nonlinear_arith)
            requires
                n > 0,
                h > 0,
                0 <= sum_y(owned@, w) <= n * (h - 1),
        ;
    }
    let n = owned.len() as u64;
    Coord { x: (sx / n) as u32, y: (sy / n) as u32 }
}

/// Centers recomputed from the owned-pixel partition, one per superpixel,
/// falling back to the original seed where a superpixel owns nothing.
pub fn update_centers(buckets: &Vec<Vec<usize>>, in_size: Size, originals: &Vec<Coord>) -> (r: Vec<
    Coord,
>)
    requires
        in_size.x > 0,
        in_size.y > 0,
        buckets@.len() == originals@.len(),
        forall|c: int| 0 <= c < buckets@.len() ==> #[trigger] buckets@[c]@.len() <= u32::MAX,
        forall|c: int, j: int|
            0 <= c < buckets@.len() && 0 <= j < buckets@[c]@.len() ==> #[trigger] buckets@[c]@[j]
                < in_size.area(),
        forall|c: int| 0 <= c < originals@.len() ==> in_bounds(#[trigger] originals@[c], in_size),
    ensures
        r@.len() == buckets@.len(),
        forall|c: int|
            0 <= c < r@.len() ==> #[trigger] r@[c] == bucket_center(
                buckets@[c]@,
                originals@[c],
                in_size,
            ),
        forall|c: int| 0 <= c < r@.len() ==> in_bounds(#[trigger] r@[c], in_size),
{
    let mut out: Vec<Coord> = Vec::new();
    let mut c: usize = 0;
    while c < buckets.len()
        invariant
            c <= buckets@.len(),
            out@.len() == c,
            in_size.x > 0,
            in_size.y > 0,
            buckets@.len() == originals@.len(),
            forall|k: int| 0 <= k < buckets@.len() ==> #[trigger] buckets@[k]@.len() <= u32::MAX,
            forall|k: int, j: int|
                0 <= k < buckets@.len() && 0 <= j < buckets@[k]@.len() ==> #[trigger] buckets@[k]@[j]
                    < in_size.area(),
            forall|k: int|
                0 <= k < originals@.len() ==> in_bounds(#[trigger] originals@[k], in_size),
            forall|k: int|
                0 <= k < c ==> #[trigger] out@[k] == bucket_center(
                    buckets@[k]@,
                    originals@[k],
                    in_size,
                ),
            forall|k: int| 0 <= k < c ==> in_bounds(#[trigger] out@[k], in_size),
        decreases buckets@.len() - c,
    {
        let center = center_of(&buckets[c], in_size, originals[c]);
        out.push(center);
        c = c + 1;
    }
    out
}

/// The centers the owned-pixel partition induces, before smoothing: one per
/// superpixel, the floored mean of its owned pixels, or its seed.
pub open spec fn partition_centers(
    buckets: Seq<Seq<usize>>,
    originals: Seq<Coord>,
    in_size: Size,
) -> Seq<Coord> {
    Seq::new(buckets.len(), |c: int| bucket_center(buckets[c], originals[c], in_size))
}

/// The position half of one SP_REFINE pass. The per-pixel choices are
/// scattered into each superpixel's owned-pixel list; every superpixel's
/// center becomes the floored mean of its owned pixels (its seed when it
/// owns none); and a Laplacian pass blends each center with its 4-neighbor
/// mean. The returned lists partition the input pixels; the color half of
/// the pass works on the same partition.
pub fn refine_positions(
    choices: &Vec<usize>,
    in_size: Size,
    out_size: Size,
    originals: &Vec<Coord>,
) -> (r: (Vec<Vec<usize>>, Vec<Coord>))
    requires
        in_size.x > 0,
        in_size.y > 0,
        out_size.area() <= usize::MAX,
        originals@.len() == out_size.area(),
        choices@.len() == in_size.area(),
        in_size.area() <= u32::MAX,
        forall|i: int| 0 <= i < choices@.len() ==> #[trigger] choices@[i] < out_size.area(),
        forall|c: int| 0 <= c < originals@.len() ==> in_bounds(#[trigger] originals@[c], in_size),
    ensures
        scatter_post(
            choices@,
            r.0@.map_values(|b: Vec<usize>| b@),
            out_size.area(),
        ),
        r.0@.len() == out_size.area(),
        r.1@.len() == out_size.area(),
        forall|k: int|
            0 <= k < r.1@.len() ==> #[trigger] r.1@[k] == smoothed_center(
                partition_centers(
                    r.0@.map_values(|b: Vec<usize>| b@),
                    originals@,
                    in_size,
                ),
                Coord { x: (k % out_size.x as int) as u32, y: (k / out_size.x as int) as u32 },
                out_size,
            ),
{
    let ghost bview = |b: Vec<usize>| b@;
    let n_cells = originals.len();
    let buckets = scatter(choices, n_cells);
    proof {
        assert forall|c: int, j: int|
            0 <= c < buckets@.len() && 0 <= j < buckets@[c]@.len() implies #[trigger] buckets@[c]@[j]
            < in_size.area() by {
            assert(buckets@.map_values(bview)[c][j] < choices@.len());
        }
        assert forall|c: int| 0 <= c < buckets@.len() implies #[trigger] buckets@[c]@.len()
            <= u32::MAX by {
            let b = buckets@[c]@;
            assert(b == buckets@.map_values(bview)[c]);
            if b.len() > 0 {
                lemma_strict_increasing_bound(b);
                assert(b.len() - 1 <= b[b.len() - 1]);
                assert(b[b.len() - 1] < choices@.len());
            }
        }
    }
    let centers = update_centers(&buckets, in_size, originals);
    proof {
        assert(centers@ =~= partition_centers(buckets@.map_values(bview), originals@, in_size));
    }
    let smoothed = smooth_centers(&centers, out_size);
    (buckets, smoothed)
}

/// A strictly increasing list of pixel indices is no longer than the range
/// its entries lie in.
proof fn lemma_strict_increasing_bound(b: Seq<usize>)
    requires
        forall|j1: int, j2: int| 0 <= j1 < j2 < b.len() ==> #[trigger] b[j1] < #[trigger] b[j2],
    ensures
        forall|j: int| 0 <= j < b.len() ==> j <= #[trigger] b[j],
    decreases b.len(),
{
    assert forall|j: int| 0 <= j < b.len() implies j <= #[trigger] b[j] by {
        lemma_strict_increasing_prefix(b, j);
    }
}

/// Each entry of a strictly increasing list is at least its position.
proof fn lemma_strict_increasing_prefix(b: Seq<usize>, j: int)
    requires
        forall|j1: int, j2: int| 0 <= j1 < j2 < b.len() ==> #[trigger] b[j1] < #[trigger] b[j2],
        0 <= j < b.len(),
    ensures
        j <= b[j],
    decreases j,
{
    if j > 0 {
        lemma_strict_increasing_prefix(b, j - 1);
        assert(b[j - 1] < b[j]);
    }
}

/// Sum of the x components of the stored centers of a list of grid cells.
pub open spec fn centers_sum_x(centers: Seq<Coord>, cells: Seq<Coord>, s: Size) -> int
    decreases cells.len(),
{
    if cells.len() == 0 {
        0
    } else {
        centers_sum_x(centers, cells.drop_last(), s) + centers[index_of(cells.last(), s)].x
    }
}

/// Sum of the y components, as `centers_sum_x`.
pub open spec fn centers_sum_y(centers: Seq<Coord>, cells: Seq<Coord>, s: Size) -> int
    decreases cells.len(),
{
    if cells.len() == 0 {
        0
    } else {
        centers_sum_y(centers, cells.drop_last(), s) + centers[index_of(cells.last(), s)].y
    }
}

/// The Laplacian-smoothed center of the cell with index `k`: the mean of the
/// 4-neighbor centers blended 2:3 with the cell's own center and floored,
/// `floor(0.4 * mean + 0.6 * own)`. A cell with no neighbors — possible only
/// on a one-cell grid — lands on the origin.
pub open spec fn smoothed_center(centers: Seq<Coord>, cell: Coord, s: Size) -> Coord {
    let w = window4_spec(cell, s);
    let n = w.len() as int;
    let own = centers[index_of(cell, s)];
    if n == 0 {
        Coord { x: 0, y: 0 }
    } else {
        Coord {
            x: ((2 * centers_sum_x(centers, w, s) + 3 * own.x * n) / (5 * n)) as u32,
            y: ((2 * centers_sum_y(centers, w, s) + 3 * own.y * n) / (5 * n)) as u32,
        }
    }
}

proof fn lemma_centers_sum_bounds(centers: Seq<Coord>, cells: Seq<Coord>, s: Size)
    requires
        centers.len() == s.area(),
        forall|j: int| 0 <= j < cells.len() ==> in_bounds(#[trigger] cells[j], s),
        forall|j: int| 0 <= j < centers.len() ==> (#[trigger] centers[j]).x <= u32::MAX
            && centers[j].y <= u32::MAX,
    ensures
        0 <= centers_sum_x(centers, cells, s) <= cells.len() * (u32::MAX as int),
        0 <= centers_sum_y(centers, cells, s) <= cells.len() * (u32::MAX as int),
    decreases cells.len(),
{
    if cells.len() > 0 {
        lemma_centers_sum_bounds(centers, cells.drop_last(), s);
        lemma_index_of_in_range(cells.last(), s);
        let m = u32::MAX as int;
        assert((cells.len() - 1) * m + m == cells.len() * m) by (nonlinear_arith);
    }
}

/// One smoothing pass over all superpixel centers. Each new center blends
/// the mean of the 4-neighbor centers (2 parts) with the cell's own center
/// (3 parts), floored to integers; the pass reads only the snapshot taken
/// before it started.
pub fn smooth_centers(centers: &Vec<Coord>, out_size: Size) -> (r: Vec<Coord>)
    requires
        out_size.area() <= usize::MAX,
        centers@.len() == out_size.area(),
    ensures
        r@.len() == centers@.len(),
        forall|k: int|
            0 <= k < r@.len() ==> #[trigger] r@[k] == smoothed_center(
                centers@,
                Coord { x: (k % out_size.x as int) as u32, y: (k / out_size.x as int) as u32 },
                out_size,
            ),
{
    let mut out: Vec<Coord> = Vec::new();
    let mut j: u32 = 0;
    while j < out_size.y
        invariant
            j <= out_size.y,
            out_size.area() <= usize::MAX,
            centers@.len() == out_size.area(),
            out@.len() == j * out_size.x,
            forall|k: int|
                0 <= k < out@.len() ==> #[trigger] out@[k] == smoothed_center(
                    centers@,
                    Coord { x: (k % out_size.x as int) as u32, y: (k / out_size.x as int) as u32 },
                    out_size,
                ),
        decreases out_size.y - j,
    {
        let mut i: u32 = 0;
        proof {
            lemma_mul_le(j + 1, out_size.x as int, out_size.y as int, out_size.x as int);
            assert(j * out_size.x + out_size.x == (j + 1) * out_size.x) by (nonlinear_arith);
            assert(out_size.y * out_size.x == out_size.area()) by (nonlinear_arith);
        }
        while i < out_size.x
            invariant
                i <= out_size.x,
                j < out_size.y,
                out_size.area() <= usize::MAX,
                centers@.len() == out_size.area(),
                out@.len() == j * out_size.x + i,
                (j + 1) * out_size.x <= out_size.area(),
                j * out_size.x + out_size.x == (j + 1) * out_size.x,
                forall|k: int|
                    0 <= k < out@.len() ==> #[trigger] out@[k] == smoothed_center(
                        centers@,
                        Coord {
                            x: (k % out_size.x as int) as u32,
                            y: (k / out_size.x as int) as u32,
                        },
                        out_size,
                    ),
            decreases out_size.x - i,
        {
            let cell = Coord { x: i, y: j };
            let w = window4(cell, out_size);
            let mut sx: u64 = 0;
            let mut sy: u64 = 0;
            let mut t: usize = 0;
            proof {
                lemma_centers_sum_bounds(centers@, w@, out_size);
            }
            while t < w.len()
                invariant
                    t <= w@.len(),
                    w@.len() <= 4,
                    centers@.len() == out_size.area(),
                    out_size.area() <= usize::MAX,
                    forall|q: int| 0 <= q < w@.len() ==> in_bounds(#[trigger] w@[q], out_size),
                    sx == centers_sum_x(centers@, w@.take(t as int), out_size),
                    sy == centers_sum_y(centers@, w@.take(t as int), out_size),
                    sx <= t * (u32::MAX as int),
                    sy <= t * (u32::MAX as int),
                decreases w@.len() - t,
            {
                let nc = centers[out_size.coord_to_idx(w[t])];
                proof {
                    lemma_centers_sum_bounds(centers@, w@.take(t as int), out_size);
                    assert(w@.take(t + 1).drop_last() =~= w@.take(t as int));
                    assert(w@.take(t + 1).last() == w@[t as int]);
                    let m = u32::MAX as int;
                    assert(t * m + m == (t + 1) * m) by (nonlinear_arith);
                }
                sx = sx + nc.x as u64;
                sy = sy + nc.y as u64;
                t = t + 1;
            }
            proof {
                assert(w@.take(w@.len() as int) =~= w@);
            }
            let n = w.len() as u64;
            let own = centers[out_size.coord_to_idx(cell)];
            proof {
                let m = u32::MAX as int;
                let ni = n as int;
                assert(ni * m <= 4 * m && 3 * (own.x as int) * ni <= 12 * m && 3 * (own.y as int)
                    * ni <= 12 * m) by (nonlinear_arith)
                    requires
                        0 <= ni <= 4,
                        0 <= (own.x as int) <= m,
                        0 <= (own.y as int) <= m,
                ;
            }
            let new_center = if n == 0 {
                Coord { x: 0, y: 0 }
            } else {
                let nx = (2 * sx + 3 * own.x as u64 * n) / (5 * n);
                let ny = (2 * sy + 3 * own.y as u64 * n) / (5 * n);
                proof {
                    let m = u32::MAX as int;
                    let ni = n as int;
                    assert(0 <= (2 * sx + 3 * own.x * ni) / (5 * ni) <= m) by (nonlinear_arith)
                        requires
                            1 <= ni <= 4,
                            0 <= sx <= ni * m,
                            0 <= (own.x as int) <= m,
                    ;
                    assert(0 <= (2 * sy + 3 * own.y * ni) / (5 * ni) <= m) by (nonlinear_arith)
                        requires
                            1 <= ni <= 4,
                            0 <= sy <= ni * m,
                            0 <= (own.y as int) <= m,
                    ;
                }
                Coord { x: nx as u32, y: ny as u32 }
            };
            proof {
                lemma_index_of_in_range(cell, out_size);
                assert(new_center == smoothed_center(centers@, cell, out_size));
                let k = out@.len() as int;
                assert(k == j * out_size.x + i);
                assert(k % out_size.x as int == i && k / out_size.x as int == j)
                    by (nonlinear_arith)
                    requires
                        out_size.x > 0,
                        0 <= (i as int) < out_size.x as int,
                        0 <= (j as int),
                        k == j * out_size.x + i,
                ;
            }
            out.push(new_center);
            i = i + 1;
        }
        j = j + 1;
    }
    proof {
        assert(out@.len() == out_size.y * out_size.x);
        assert(out_size.y * out_size.x == out_size.area()) by (nonlinear_arith);
    }
    out
}

} // verus!
