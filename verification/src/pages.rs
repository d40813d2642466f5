//! Pagination of the chart: the tile grid that splits the pattern into
//! page-sized slices, the legend page count, the slot of each legend line,
//! the total page count, and the axis labels of the overlay grid.

use vstd::prelude::*;

use crate::catalog::Rgb;
use crate::geometry::{in_bounds, lemma_mul_le, Coord, Size};

verus! {

/// Width of one chart tile, in output stitches.
pub const TILE_W: u32 = 50;

/// Height of one chart tile, in output stitches.
pub const TILE_H: u32 = 70;

/// Number of tiles along one axis: one tile per full stretch of `t`
/// stitches, and one more for a partial stretch at the end.
pub open spec fn tile_count_1d(len: int, t: int) -> int {
    len / t + if len % t == 0 {
        0int
    } else {
        1int
    }
}

/// Number of legend pages: one page holds the summary and up to 69 lines;
/// every further page holds up to 75 lines.
pub open spec fn legend_pages_spec(n: int) -> int {
    if n <= 69 {
        1
    } else {
        (n - 69 + 74) / 75 + 1
    }
}

/// Number of legend pages for `n_colors` used colors.
pub fn legend_pages(n_colors: u64) -> (r: u64)
    ensures
        r == legend_pages_spec(n_colors as int),
{
    if n_colors <= 69 {
        1
    } else {
        let r = (n_colors - 70) / 75 + 2;
        proof {
            let m = n_colors - 70;
            assert((m + 75) / 75 == m / 75 + 1) by (nonlinear_arith)
                requires
                    m >= 0,
            ;
        }
        r
    }
}

/// Tile counts along x and y for a pattern of the given size.
pub fn tile_counts(size: Size) -> (r: (u64, u64))
    ensures
        r.0 == tile_count_1d(size.x as int, TILE_W as int),
        r.1 == tile_count_1d(size.y as int, TILE_H as int),
        r.0 <= 85899346u64,
        r.1 <= 61356676u64,
{
    let tx = size.x as u64 / TILE_W as u64 + if size.x % TILE_W != 0 {
        1
    } else {
        0
    };
    let ty = size.y as u64 / TILE_H as u64 + if size.y % TILE_H != 0 {
        1
    } else {
        0
    };
    (tx, ty)
}

/// Total page count of the chart: three cover and preview pages, the legend
/// pages, and one page per tile.
pub fn total_pages(size: Size, n_colors: u64) -> (r: u64)
    requires
        n_colors <= u32::MAX,
    ensures
        r == 3 + legend_pages_spec(n_colors as int) + tile_count_1d(size.x as int, TILE_W as int)
            * tile_count_1d(size.y as int, TILE_H as int),
{
    let (tx, ty) = tile_counts(size);
    proof {
        lemma_mul_le(tx as int, ty as int, 85899346, 61356676);
        assert(legend_pages_spec(n_colors as int) <= n_colors + 2) by (nonlinear_arith)
            requires
                n_colors >= 0,
        ;
    }
    3 + legend_pages(n_colors) + tx * ty
}

/// One page-sized slice of the pattern: its top-left corner and extent in
/// stitches, and its position in the tile grid.
#[derive(Clone, Copy, Debug, PartialEq, Eq, Structural)]
pub struct Tile {
    pub x0: u32,
    pub y0: u32,
    pub w: u32,
    pub h: u32,
    pub ix: u32,
    pub iy: u32,
}

/// The tile at grid position `(ix, iy)`: a full tile inside the pattern,
/// clipped at the right and bottom edges.
pub open spec fn tile_at(size: Size, ix: int, iy: int) -> Tile {
    Tile {
        x0: (ix * TILE_W) as u32,
        y0: (iy * TILE_H) as u32,
        w: (if size.x - ix * TILE_W < TILE_W {
            size.x - ix * TILE_W
        } else {
            TILE_W as int
        }) as u32,
        h: (if size.y - iy * TILE_H < TILE_H {
            size.y - iy * TILE_H
        } else {
            TILE_H as int
        }) as u32,
        ix: ix as u32,
        iy: iy as u32,
    }
}

/// The pixel `p` lies inside the tile `t`.
pub open spec fn tile_contains(t: Tile, p: Coord) -> bool {
    t.x0 <= p.x < t.x0 + t.w && t.y0 <= p.y < t.y0 + t.h
}

proof fn lemma_axis_tile(len: int, v: int, t: int)
    requires
        t > 0,
        0 <= v < len,
    ensures
        0 <= v / t < tile_count_1d(len, t),
        (v / t) * t <= v < (v / t) * t + t,
        len - (v / t) * t >= 1,
        v < (v / t) * t + (if len - (v / t) * t < t {
            len - (v / t) * t
        } else {
            t
        }),
{
    assert(0 <= v / t && (v / t) * t <= v < (v / t) * t + t) by (nonlinear_arith)
        requires
            t > 0,
            0 <= v,
    ;
    assert(v / t < tile_count_1d(len, t)) by (nonlinear_arith)
        requires
            t > 0,
            0 <= v < len,
    ;
}

/// Every pattern pixel lies in exactly one tile: the one at grid position
/// `(p.x / TILE_W, p.y / TILE_H)`, and in no other.
pub proof fn lemma_tiles_partition(size: Size, p: Coord)
    requires
        in_bounds(p, size),
    ensures
        0 <= p.x as int / (TILE_W as int) < tile_count_1d(size.x as int, TILE_W as int),
        0 <= p.y as int / (TILE_H as int) < tile_count_1d(size.y as int, TILE_H as int),
        tile_contains(
            tile_at(size, p.x as int / (TILE_W as int), p.y as int / (TILE_H as int)),
            p,
        ),
        forall|ix: int, iy: int|
            0 <= ix < tile_count_1d(size.x as int, TILE_W as int) && 0 <= iy < tile_count_1d(
                size.y as int,
                TILE_H as int,
            ) && tile_contains(#[trigger] tile_at(size, ix, iy), p) ==> ix == p.x as int / (
            TILE_W as int) && iy == p.y as int / (TILE_H as int),
{
    lemma_axis_tile(size.x as int, p.x as int, TILE_W as int);
    lemma_axis_tile(size.y as int, p.y as int, TILE_H as int);
    assert forall|ix: int, iy: int|
        0 <= ix < tile_count_1d(size.x as int, TILE_W as int) && 0 <= iy < tile_count_1d(
            size.y as int,
            TILE_H as int,
        ) && tile_contains(#[trigger] tile_at(size, ix, iy), p) implies ix == p.x as int / (
    TILE_W as int) && iy == p.y as int / (TILE_H as int) by {
        let sxi = size.x as int;
        let syi = size.y as int;
        assert(ix * 50 < sxi) by (nonlinear_arith)
            requires
                0 <= ix,
                ix < sxi / 50 + (if sxi % 50 == 0 {
                    0int
                } else {
                    1int
                }),
                sxi >= 0,
        ;
        assert(iy * 70 < syi) by (nonlinear_arith)
            requires
                0 <= iy,
                iy < syi / 70 + (if syi % 70 == 0 {
                    0int
                } else {
                    1int
                }),
                syi >= 0,
        ;
        assert(ix * 50 <= p.x as int && (p.x as int) < ix * 50 + 50);
        assert(iy * 70 <= p.y as int && (p.y as int) < iy * 70 + 70);
        assert(ix == p.x as int / 50) by (nonlinear_arith)
            requires
                0 <= ix,
                ix * 50 <= p.x as int,
                (p.x as int) < ix * 50 + 50,
        ;
        assert(iy == p.y as int / 70) by (nonlinear_arith)
            requires
                0 <= iy,
                iy * 70 <= p.y as int,
                (p.y as int) < iy * 70 + 70,
        ;
    }
}

/// The tile grid of the pattern, in row-major order: left to right, then
/// top to bottom.
pub fn tiles(size: Size) -> (r: Vec<Tile>)
    ensures
        r@.len() == tile_count_1d(size.x as int, TILE_W as int) * tile_count_1d(
            size.y as int,
            TILE_H as int,
        ),
        forall|k: int|
            0 <= k < r@.len() ==> #[trigger] r@[k] == tile_at(
                size,
                k % tile_count_1d(size.x as int, TILE_W as int),
                k / tile_count_1d(size.x as int, TILE_W as int),
            ),
{
    let (tx, ty) = tile_counts(size);
    let ghost tcx = tile_count_1d(size.x as int, TILE_W as int);
    let ghost tcy = tile_count_1d(size.y as int, TILE_H as int);
    let mut out: Vec<Tile> = Vec::new();
    let mut iy: u64 = 0;
    while iy < ty
        invariant
            0 <= iy <= ty,
            tx == tcx,
            ty == tcy,
            tx <= 0x1_0000_0000u64,
            ty <= 0x1_0000_0000u64,
            tcx == tile_count_1d(size.x as int, TILE_W as int),
            tcy == tile_count_1d(size.y as int, TILE_H as int),
            out@.len() == iy * tcx,
            forall|k: int|
                0 <= k < out@.len() ==> #[trigger] out@[k] == tile_at(size, k % tcx, k / tcx),
        decreases ty - iy,
    {
        let mut ix: u64 = 0;
        proof {
            lemma_mul_le(iy + 1, tcx, ty as int, tcx);
            assert(iy * tcx + tcx == (iy + 1) * tcx) by (nonlinear_arith);
        }
        while ix < tx
            invariant
                0 <= ix <= tx,
                iy < ty,
                tx == tcx,
                ty == tcy,
                tx <= 0x1_0000_0000u64,
                tcx == tile_count_1d(size.x as int, TILE_W as int),
                tcy == tile_count_1d(size.y as int, TILE_H as int),
                out@.len() == iy * tcx + ix,
                iy * tcx + tcx == (iy + 1) * tcx,
                forall|k: int|
                    0 <= k < out@.len() ==> #[trigger] out@[k] == tile_at(size, k % tcx, k / tcx),
            decreases tx - ix,
        {
            proof {
                let sxi = size.x as int;
                let syi = size.y as int;
                assert(ix * 50 < sxi) by (nonlinear_arith)
                    requires
                        0 <= (ix as int),
                        (ix as int) < sxi / 50 + (if sxi % 50 == 0 {
                            0int
                        } else {
                            1int
                        }),
                        sxi >= 0,
                ;
                assert(iy * 70 < syi) by (nonlinear_arith)
                    requires
                        0 <= (iy as int),
                        (iy as int) < syi / 70 + (if syi % 70 == 0 {
                            0int
                        } else {
                            1int
                        }),
                        syi >= 0,
                ;
            }
            let x0 = ix * TILE_W as u64;
            let y0 = iy * TILE_H as u64;
            let w = if size.x as u64 - x0 < TILE_W as u64 {
                size.x as u64 - x0
            } else {
                TILE_W as u64
            };
            let h = if size.y as u64 - y0 < TILE_H as u64 {
                size.y as u64 - y0
            } else {
                TILE_H as u64
            };
            let tile = Tile {
                x0: x0 as u32,
                y0: y0 as u32,
                w: w as u32,
                h: h as u32,
                ix: ix as u32,
                iy: iy as u32,
            };
            proof {
                assert(tile == tile_at(size, ix as int, iy as int));
                let k = out@.len() as int;
                assert(k % tcx == ix && k / tcx == iy) by (nonlinear_arith)
                    requires
                        tcx > 0,
                        0 <= (ix as int) < tcx,
                        0 <= (iy as int),
                        k == iy * tcx + ix,
                ;
            }
            out.push(tile);
            ix = ix + 1;
        }
        iy = iy + 1;
    }
    proof {
        assert(ty * tcx == tcy * tcx) by (nonlinear_arith)
            requires
                ty == tcy,
        ;
        assert(tcx * tcy == tcy * tcx) by (nonlinear_arith);
    }
    out
}

/// The pixels of one tile, row-major inside the tile.
pub fn tile_pixels(pixels: &Vec<Rgb>, size: Size, t: Tile) -> (r: Vec<Rgb>)
    requires
        pixels@.len() == size.area(),
        size.area() <= usize::MAX,
        t.x0 + t.w <= size.x,
        t.y0 + t.h <= size.y,
    ensures
        r@.len() == t.w * t.h,
        forall|u: int, v: int|
            0 <= u < t.w && 0 <= v < t.h ==> #[trigger] r@[v * t.w + u] == pixels@[(t.y0 + v)
                * size.x + t.x0 + u],
{
    let mut out: Vec<Rgb> = Vec::new();
    let mut v: u32 = 0;
    while v < t.h
        invariant
            v <= t.h,
            pixels@.len() == size.area(),
            size.area() <= usize::MAX,
            t.x0 + t.w <= size.x,
            t.y0 + t.h <= size.y,
            out@.len() == v * t.w,
            forall|u2: int, v2: int|
                0 <= u2 < t.w && 0 <= v2 < v ==> #[trigger] out@[v2 * t.w + u2] == pixels@[(t.y0
                    + v2) * size.x + t.x0 + u2],
        decreases t.h - v,
    {
        let mut u: u32 = 0;
        proof {
            lemma_mul_le(v + 1, t.w as int, t.h as int, t.w as int);
            lemma_mul_le(t.h as int, t.w as int, u32::MAX as int, u32::MAX as int);
            assert(v * t.w + t.w == (v + 1) * t.w) by (nonlinear_arith);
        }
        while u < t.w
            invariant
                u <= t.w,
                v < t.h,
                pixels@.len() == size.area(),
                size.area() <= usize::MAX,
                t.x0 + t.w <= size.x,
                t.y0 + t.h <= size.y,
                out@.len() == v * t.w + u,
                v * t.w + t.w == (v + 1) * t.w,
                forall|u2: int, v2: int|
                    0 <= u2 < t.w && 0 <= v2 < v ==> #[trigger] out@[v2 * t.w + u2] == pixels@[(t.y0
                        + v2) * size.x + t.x0 + u2],
                forall|u2: int|
                    0 <= u2 < u ==> #[trigger] out@[v * t.w + u2] == pixels@[(t.y0 + v) * size.x
                        + t.x0 + u2],
            decreases t.w - u,
        {
            let px = t.x0 as u64 + u as u64;
            let py = t.y0 as u64 + v as u64;
            proof {
                lemma_mul_le(py as int, size.x as int, u32::MAX as int, u32::MAX as int);
                assert((py as int) * size.x + px < size.area() && 0 <= (py as int) * size.x + px)
                    by (nonlinear_arith)
                    requires
                        0 <= (px as int) < size.x as int,
                        0 <= (py as int) < size.y as int,
                ;
            }
            let idx = (py * size.x as u64 + px) as usize;
            let c = pixels[idx];
            out.push(c);
            proof {
                assert forall|u2: int, v2: int| 0 <= u2 < t.w && 0 <= v2 < v implies #[trigger] out@[v2
                    * t.w + u2] == pixels@[(t.y0 + v2) * size.x + t.x0 + u2] by {
                    assert(0 <= v2 * t.w + u2 && v2 * t.w + u2 < v * t.w) by (nonlinear_arith)
                        requires
                            0 <= u2 < t.w as int,
                            0 <= v2,
                            v2 < v as int,
                    ;
                }
            }
            u = u + 1;
        }
        v = v + 1;
    }
    proof {
        assert(t.h * t.w == t.w * t.h) by (nonlinear_arith);
    }
    out
}

/// The slot of legend line `idx` in the legend pages, as (page, column,
/// row). The first legend page carries the summary header and holds three
/// columns of 23 lines; every later page holds three columns of 25 lines.
pub fn legend_slot(idx: u64) -> (r: (u64, u64, u64))
    ensures
        idx < 69 ==> r.0 == 0 && r.1 == idx as int / 23 && r.2 == idx as int % 23,
        idx >= 69 ==> r.0 == 1 + (idx - 69) / 75 && r.1 == ((idx - 69) % 75) / 25 && r.2 == ((idx
            - 69) % 75) % 25,
{
    if idx < 69 {
        (0, idx / 23, idx % 23)
    } else {
        let rem = idx - 69;
        (1 + rem / 75, (rem % 75) / 25, (rem % 75) % 25)
    }
}

/// Every legend line of a chart with `n` colors falls on a legend page.
pub proof fn lemma_legend_slot_on_page(idx: int, n: int)
    requires
        0 <= idx < n,
    ensures
        idx < 69 ==> 0 < legend_pages_spec(n),
        idx >= 69 ==> 1 + (idx - 69) / 75 < legend_pages_spec(n),
{
    if idx >= 69 {
        assert((idx - 69) / 75 <= (n - 70) / 75) by (nonlinear_arith)
            requires
                69 <= idx < n,
        ;
        assert((n - 70) / 75 + 1 == (n - 70 + 75) / 75) by (nonlinear_arith)
            requires
                n >= 70,
        ;
    }
}

/// The axis labels of the overlay grid on one tile page: a label every ten
/// stitches along each axis, counted from the tile's offset in the whole
/// pattern, and an end label at a partial trailing stretch.
pub struct OverlayLabels {
    pub cols: Vec<u64>,
    pub col_end: Option<u64>,
    pub rows: Vec<u64>,
    pub row_end: Option<u64>,
}

/// Computes the overlay labels for a tile of the given size at tile-grid
/// position `(tile_ix, tile_iy)`. Column labels run left to right; row
/// labels run top to bottom and count down the remaining full tens.
pub fn overlay_labels(size: Size, tile_ix: u32, tile_iy: u32) -> (r: OverlayLabels)
    ensures
        r.cols@.len() == size.x as int / 10,
        forall|t: int|
            0 <= t < r.cols@.len() ==> #[trigger] r.cols@[t] == 10 * (t + 1) + tile_ix as int * (
            TILE_W as int),
        r.col_end == if size.x as int % 10 != 0 {
            Some((tile_ix * TILE_W + size.x) as u64)
        } else {
            None::<u64>
        },
        r.rows@.len() == size.y as int / 10,
        forall|t: int|
            0 <= t < r.rows@.len() ==> #[trigger] r.rows@[t] == 10 * (size.y as int / 10 - t)
                + tile_iy as int * (TILE_H as int),
        r.row_end == if size.y as int % 10 != 0 {
            Some((tile_iy * TILE_H + size.y) as u64)
        } else {
            None::<u64>
        },
{
    let sx = size.x as u64 / 10;
    let sy = size.y as u64 / 10;
    let off_x = tile_ix as u64 * TILE_W as u64;
    let off_y = tile_iy as u64 * TILE_H as u64;
    proof {
        lemma_mul_le(tile_ix as int, TILE_W as int, u32::MAX as int, 50);
        lemma_mul_le(tile_iy as int, TILE_H as int, u32::MAX as int, 70);
    }
    let mut cols: Vec<u64> = Vec::new();
    let mut t: u64 = 0;
    while t < sx
        invariant
            t <= sx,
            sx == size.x as int / 10,
            off_x == tile_ix as int * (TILE_W as int),
            off_x <= 0xC8_0000_0000u64,
            cols@.len() == t,
            forall|u: int| 0 <= u < t ==> #[trigger] cols@[u] == 10 * (u + 1) + off_x,
        decreases sx - t,
    {
        cols.push(10 * (t + 1) + off_x);
        t = t + 1;
    }
    let col_end = if size.x % 10 != 0 {
        Some(off_x + size.x as u64)
    } else {
        None
    };
    let mut rows: Vec<u64> = Vec::new();
    let mut t2: u64 = 0;
    while t2 < sy
        invariant
            t2 <= sy,
            sy == size.y as int / 10,
            off_y == tile_iy as int * (TILE_H as int),
            off_y <= 0x118_0000_0000u64,
            rows@.len() == t2,
            forall|u: int| 0 <= u < t2 ==> #[trigger] rows@[u] == 10 * (sy - u) + off_y,
        decreases sy - t2,
    {
        rows.push(10 * (sy - t2) + off_y);
        t2 = t2 + 1;
    }
    let row_end = if size.y % 10 != 0 {
        Some(off_y + size.y as u64)
    } else {
        None
    };
    OverlayLabels { cols, col_end, rows, row_end }
}

} // verus!
