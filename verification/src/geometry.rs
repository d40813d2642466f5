//! Output-grid geometry: sizes, coordinates, row-major indexing, the choice
//! of the output resolution, superpixel seed positions, and the 3-by-3
//! candidate window used when input pixels are assigned to superpixels.

use vstd::prelude::*;

verus! {

/// Width and height of a raster, in pixels.
#[derive(Clone, Copy, Debug, PartialEq, Eq, Structural)]
pub struct Size {
    pub x: u32,
    pub y: u32,
}

/// A pixel or grid-cell coordinate, column `x` and row `y`.
#[derive(Clone, Copy, Debug, PartialEq, Eq, Structural)]
pub struct Coord {
    pub x: u32,
    pub y: u32,
}

/// The coordinate lies inside a raster of size `s`.
pub open spec fn in_bounds(c: Coord, s: Size) -> bool {
    c.x < s.x && c.y < s.y
}

/// Row-major index of a coordinate in a raster of size `s`.
pub open spec fn index_of(c: Coord, s: Size) -> int {
    c.x + s.x * c.y
}

/// A row-major index is within the pixel count of its raster.
pub proof fn lemma_index_of_in_range(c: Coord, s: Size)
    requires
        in_bounds(c, s),
    ensures
        0 <= index_of(c, s) < s.x * s.y,
{
    assert(c.x + s.x * c.y < s.x * s.y) by (nonlinear_arith)
        requires
            c.x < s.x,
            c.y < s.y,
    ;
}

impl Size {
    /// Number of pixels in the raster.
    pub open spec fn area(self) -> int {
        self.x * self.y
    }

    /// Row-major index of an in-bounds coordinate.
    pub fn coord_to_idx(&self, c: Coord) -> (r: usize)
        requires
            in_bounds(c, *self),
            self.area() <= usize::MAX,
        ensures
            r == index_of(c, *self),
            r < self.area(),
    {
        proof {
            lemma_index_of_in_range(c, *self);
        }
        c.x as usize + self.x as usize * c.y as usize
    }

    /// Coordinate of a row-major index.
    pub fn idx_to_coord(&self, idx: usize) -> (r: Coord)
        requires
            self.x > 0,
            idx < self.area(),
        ensures
            r.x == idx as int % self.x as int,
            r.y == idx as int / self.x as int,
            in_bounds(r, *self),
            index_of(r, *self) == idx,
    {
        let x = idx % self.x as usize;
        let y = idx / self.x as usize;
        proof {
            let xi = self.x as int;
            let yi = self.y as int;
            let ii = idx as int;
            assert(ii / xi < yi && xi * (ii / xi) + ii % xi == ii) by (nonlinear_arith)
                requires
                    xi > 0,
                    yi >= 0,
                    0 <= ii < xi * yi,
            ;
        }
        Coord { x: x as u32, y: y as u32 }
    }
}

/// A product grows with its factors.
pub proof fn lemma_mul_le(a: int, b: int, x: int, y: int)
    requires
        0 <= a <= x,
        0 <= b <= y,
    ensures
        a * b <= x * y,
{
    assert(a * b <= x * y) by (nonlinear_arith)
        requires
            0 <= a <= x,
            0 <= b <= y,
    ;
}

/// Euclidean ceiling division, `ceil(a / b)`.
pub fn div_ceil_u64(a: u64, b: u64) -> (r: u64)
    requires
        b > 0,
    ensures
        r == (a + b - 1) / (b as int),
        b * r >= a,
        a > 0 ==> b * (r - 1) < a,
{
    let r = if a == 0 { 0 } else { (a - 1) / b + 1 };
    proof {
        let bi = b as int;
        let ai = a as int;
        assert(ai > 0 ==> (ai - 1) / bi + 1 == (ai + bi - 1) / bi) by (nonlinear_arith)
            requires
                bi > 0,
        ;
        assert(ai == 0 ==> (ai + bi - 1) / bi == 0) by (nonlinear_arith)
            requires
                bi > 0,
        ;
        assert(bi * ((ai + bi - 1) / bi) >= ai && (ai > 0 ==> bi * ((ai + bi - 1) / bi - 1) < ai))
            by (nonlinear_arith)
            requires
                bi > 0,
                ai >= 0,
        ;
    }
    r
}

/// Output resolution for a given input: the greater side of the output equals
/// `max_side` and the other side keeps the aspect ratio, rounded up.
pub fn output_size(in_size: Size, max_side: u16) -> (r: Size)
    requires
        in_size.x > 0,
        in_size.y > 0,
        max_side > 0,
    ensures
        in_size.x >= in_size.y ==> r.x == max_side && r.y == (max_side * in_size.y + in_size.x
            - 1) / (in_size.x as int),
        in_size.x < in_size.y ==> r.y == max_side && r.x == (max_side * in_size.x + in_size.y - 1)
            / (in_size.y as int),
        r.x > 0 && r.y > 0,
        r.x <= max_side && r.y <= max_side,
{
    proof {
        lemma_mul_le(max_side as int, in_size.y as int, u32::MAX as int, u32::MAX as int);
        lemma_mul_le(max_side as int, in_size.x as int, u32::MAX as int, u32::MAX as int);
    }
    if in_size.x >= in_size.y {
        let other = div_ceil_u64(max_side as u64 * in_size.y as u64, in_size.x as u64);
        proof {
            let m = max_side as int;
            let ix = in_size.x as int;
            let iy = in_size.y as int;
            assert(1 <= (m * iy + ix - 1) / ix <= m) by (nonlinear_arith)
                requires
                    0 < iy <= ix,
                    m > 0,
            ;
        }
        Size { x: max_side as u32, y: other as u32 }
    } else {
        let other = div_ceil_u64(max_side as u64 * in_size.x as u64, in_size.y as u64);
        proof {
            let m = max_side as int;
            let ix = in_size.x as int;
            let iy = in_size.y as int;
            assert(1 <= (m * ix + iy - 1) / iy <= m) by (nonlinear_arith)
                requires
                    0 < ix < iy,
                    m > 0,
            ;
        }
        Size { x: other as u32, y: max_side as u32 }
    }
}

/// Seed position of the output cell `(gx, gy)` in the input image: the
/// top-left corner of the uniform grid cell, by integer division.
pub fn seed_center(gx: u32, gy: u32, in_size: Size, out_size: Size) -> (r: Coord)
    requires
        out_size.x > 0,
        out_size.y > 0,
        in_size.x > 0,
        in_size.y > 0,
        gx < out_size.x,
        gy < out_size.y,
    ensures
        r.x == gx * in_size.x / (out_size.x as int),
        r.y == gy * in_size.y / (out_size.y as int),
        in_bounds(r, in_size),
{
    proof {
        lemma_mul_le(gx as int, in_size.x as int, u32::MAX as int, u32::MAX as int);
        lemma_mul_le(gy as int, in_size.y as int, u32::MAX as int, u32::MAX as int);
    }
    let x = (gx as u64 * in_size.x as u64) / out_size.x as u64;
    let y = (gy as u64 * in_size.y as u64) / out_size.y as u64;
    proof {
        assert(gx * in_size.x / (out_size.x as int) < in_size.x) by (nonlinear_arith)
            requires
                0 <= (gx as int) < out_size.x as int,
                in_size.x > 0,
        ;
        assert(gy * in_size.y / (out_size.y as int) < in_size.y) by (nonlinear_arith)
            requires
                0 <= (gy as int) < out_size.y as int,
                in_size.y > 0,
        ;
    }
    Coord { x: x as u32, y: y as u32 }
}

/// The output-grid cell whose footprint contains the input pixel `p`.
pub fn cell_of_pixel(p: Coord, in_size: Size, out_size: Size) -> (r: Coord)
    requires
        in_bounds(p, in_size),
        out_size.x > 0,
        out_size.y > 0,
    ensures
        r.x == p.x * out_size.x / (in_size.x as int),
        r.y == p.y * out_size.y / (in_size.y as int),
        in_bounds(r, out_size),
{
    proof {
        lemma_mul_le(p.x as int, out_size.x as int, u32::MAX as int, u32::MAX as int);
        lemma_mul_le(p.y as int, out_size.y as int, u32::MAX as int, u32::MAX as int);
    }
    let x = (p.x as u64 * out_size.x as u64) / in_size.x as u64;
    let y = (p.y as u64 * out_size.y as u64) / in_size.y as u64;
    proof {
        assert(p.x * out_size.x / (in_size.x as int) < out_size.x) by (nonlinear_arith)
            requires
                0 <= (p.x as int) < in_size.x as int,
                out_size.x > 0,
        ;
        assert(p.y * out_size.y / (in_size.y as int) < out_size.y) by (nonlinear_arith)
            requires
                0 <= (p.y as int) < in_size.y as int,
                out_size.y > 0,
        ;
    }
    Coord { x: x as u32, y: y as u32 }
}

/// The singleton `[ (x, y) ]` when that coordinate is inside `s`, else empty.
pub open spec fn maybe_cell(x: int, y: int, s: Size) -> Seq<Coord> {
    if 0 <= x < s.x && 0 <= y < s.y {
        seq![Coord { x: x as u32, y: y as u32 }]
    } else {
        seq![]
    }
}

/// The 3-by-3 window of grid cells around `c`, clamped to the grid, in the
/// scan order used when candidate superpixels are examined: offsets
/// (-1,-1), (-1,0), (-1,1), (0,-1), (0,0), (0,1), (1,-1), (1,0), (1,1).
pub open spec fn window3x3_spec(c: Coord, s: Size) -> Seq<Coord> {
    maybe_cell(c.x - 1, c.y - 1, s) + maybe_cell(c.x - 1, c.y as int, s) + maybe_cell(
        c.x - 1,
        c.y + 1,
        s,
    )
        + maybe_cell(c.x as int, c.y - 1, s) + maybe_cell(c.x as int, c.y as int, s) + maybe_cell(
        c.x as int,
        c.y + 1,
        s,
    ) + maybe_cell(c.x + 1, c.y - 1, s) + maybe_cell(c.x + 1, c.y as int, s) + maybe_cell(
        c.x + 1,
        c.y + 1,
        s,
    )
}

/// The 4-neighbor window of `c` (below, above, left, right), clamped.
pub open spec fn window4_spec(c: Coord, s: Size) -> Seq<Coord> {
    maybe_cell(c.x as int, c.y + 1, s) + maybe_cell(c.x as int, c.y - 1, s) + maybe_cell(
        c.x - 1,
        c.y as int,
        s,
    ) + maybe_cell(c.x + 1, c.y as int, s)
}

/// Appends the coordinate `(x, y)` when it lies inside `s`.
fn push_cell(out: &mut Vec<Coord>, x: i64, y: i64, s: Size)
    requires
        -2 <= x <= u32::MAX as int + 1,
        -2 <= y <= u32::MAX as int + 1,
    ensures
        final(out)@ == old(out)@ + maybe_cell(x as int, y as int, s),
{
    if x >= 0 && y >= 0 && x < s.x as i64 && y < s.y as i64 {
        out.push(Coord { x: x as u32, y: y as u32 });
        assert(out@ =~= old(out)@ + maybe_cell(x as int, y as int, s));
    } else {
        assert(out@ =~= old(out)@ + maybe_cell(x as int, y as int, s));
    }
}

/// The 3-by-3 candidate window around cell `c`, in scan order.
pub fn window3x3(c: Coord, s: Size) -> (r: Vec<Coord>)
    requires
        in_bounds(c, s),
    ensures
        r@ == window3x3_spec(c, s),
        forall|i: int| 0 <= i < r@.len() ==> in_bounds(#[trigger] r@[i], s),
        r@.contains(c),
        r@.len() >= 1,
{
    let mut out: Vec<Coord> = Vec::new();
    let x = c.x as i64;
    let y = c.y as i64;
    push_cell(&mut out, x - 1, y - 1, s);
    push_cell(&mut out, x - 1, y, s);
    push_cell(&mut out, x - 1, y + 1, s);
    push_cell(&mut out, x, y - 1, s);
    push_cell(&mut out, x, y, s);
    push_cell(&mut out, x, y + 1, s);
    push_cell(&mut out, x + 1, y - 1, s);
    push_cell(&mut out, x + 1, y, s);
    push_cell(&mut out, x + 1, y + 1, s);
    proof {
        assert(out@ =~= window3x3_spec(c, s));
        let center = maybe_cell(c.x as int, c.y as int, s);
        assert(center == seq![c]);
        let prefix = maybe_cell(c.x - 1, c.y - 1, s) + maybe_cell(c.x - 1, c.y as int, s)
            + maybe_cell(c.x - 1, c.y + 1, s) + maybe_cell(c.x as int, c.y - 1, s);
        assert(window3x3_spec(c, s)[prefix.len() as int] == c);
        assert forall|i: int| 0 <= i < out@.len() implies in_bounds(#[trigger] out@[i], s) by {
            lemma_window3x3_in_bounds(c, s);
        }
    }
    out
}

/// Every cell of the 3-by-3 window lies inside the grid.
pub proof fn lemma_window3x3_in_bounds(c: Coord, s: Size)
    ensures
        forall|i: int|
            0 <= i < window3x3_spec(c, s).len() ==> in_bounds(
                #[trigger] window3x3_spec(c, s)[i],
                s,
            ),
{
}

/// The 4-neighbor window around cell `c`.
pub fn window4(c: Coord, s: Size) -> (r: Vec<Coord>)
    requires
        in_bounds(c, s),
    ensures
        r@ == window4_spec(c, s),
        forall|i: int| 0 <= i < r@.len() ==> in_bounds(#[trigger] r@[i], s),
{
    let mut out: Vec<Coord> = Vec::new();
    let x = c.x as i64;
    let y = c.y as i64;
    push_cell(&mut out, x, y + 1, s);
    push_cell(&mut out, x, y - 1, s);
    push_cell(&mut out, x - 1, y, s);
    push_cell(&mut out, x + 1, y, s);
    proof {
        assert(out@ =~= window4_spec(c, s));
        assert forall|i: int| 0 <= i < out@.len() implies in_bounds(#[trigger] out@[i], s) by {
        }
    }
    out
}

} // verus!
