//! The scanline tile rasterizer. Straight-line path commands in 26.6
//! fixed-point device coordinates are walked cell by cell: every pixel cell
//! a segment passes through receives the exact signed trapezoidal area the
//! segment sweeps against the cell's right edge, and every tile-row
//! crossing records a winding delta. A sweep over the accumulated
//! increments, ordered row-major by tile, then yields solid runs for fully
//! covered tiles and 8x8 coverage masks for partially covered ones, under
//! the non-zero fill rule.

use vstd::prelude::*;
use vstd::arithmetic::div_mod::{
    lemma_div_is_ordered, lemma_div_multiples_vanish, lemma_div_of0, lemma_fundamental_div_mod,
    lemma_mod_division_less_than_divisor,
};
use crate::num::floor_div;

verus! {

/// A point in 26.6 fixed-point device coordinates: 64 units per pixel.
#[derive(Debug, Clone, Copy, PartialEq, Eq, Structural)]
pub struct PointFx {
    pub x: i32,
    pub y: i32,
}

/// A point lifted to unbounded integers, for specification.
pub struct SpecPoint {
    pub x: int,
    pub y: int,
}

impl PointFx {
    /// The mathematical value of this point.
    pub open spec fn sp(self) -> SpecPoint {
        SpecPoint { x: self.x as int, y: self.y as int }
    }
}

/// Coordinates within 32768 pixels of the origin, where all the sweep
/// arithmetic stays in range.
pub open spec fn valid_coord(v: int) -> bool {
    -0x20_0000 <= v <= 0x20_0000
}

/// Both coordinates in range.
pub open spec fn valid_point(p: PointFx) -> bool {
    valid_coord(p.x as int) && valid_coord(p.y as int)
}

/// The signed area and vertical extent a segment fragment sweeps within
/// one pixel cell. `area` carries 1/8192 of a square pixel per unit,
/// `height` 1/8192 of the cell height per unit; both are accumulated,
/// never mutated.
#[derive(Debug, Clone, Copy, PartialEq, Eq, Structural)]
pub struct Increment {
    pub x: i32,
    pub y: i32,
    pub area: i64,
    pub height: i64,
}

/// A winding delta recorded where the traversal crosses a tile-row
/// boundary, used to decide whether gaps between populated tiles of a row
/// are covered.
#[derive(Debug, Clone, Copy, PartialEq, Eq, Structural)]
pub struct TileIncrement {
    pub tile_x: i32,
    pub tile_y: i32,
    pub sign: i32,
}

/// An increment whose cell lies in range and whose area and height are at
/// most one cell's worth.
pub open spec fn valid_increment(i: Increment) -> bool {
    &&& -0x8000 <= i.x <= 0x8000
    &&& -0x8000 <= i.y <= 0x8000
    &&& -8192 <= i.area <= 8192
    &&& -8192 <= i.height <= 8192
}

/// A winding delta whose tile lies in range, with a unit sign.
pub open spec fn valid_tile_increment(t: TileIncrement) -> bool {
    &&& -0x1001 <= t.tile_x <= 0x1001
    &&& -0x1001 <= t.tile_y <= 0x1001
    &&& (t.sign == 1 || t.sign == -1)
}

/// The pixel cell a coordinate falls in.
pub open spec fn cell_of(v: int) -> int {
    v / 64
}

/// The tile a pixel cell falls in.
pub open spec fn tile_of(c: int) -> int {
    c / 8
}

/// Row-major comparable key of an increment's tile.
pub open spec fn inc_sort_key(i: Increment) -> int {
    (tile_of(i.y as int) + 0x1_0000) * 0x10_0000 + (tile_of(i.x as int) + 0x1_0000)
}

/// Row-major comparable key of a winding delta's tile.
pub open spec fn tinc_sort_key(t: TileIncrement) -> int {
    (t.tile_y + 0x1_0000) * 0x10_0000 + (t.tile_x + 0x1_0000)
}

/// Floor of `num / den` for nonzero `den`.
pub open spec fn floor_ratio(num: int, den: int) -> int {
    if den > 0 {
        num / den
    } else {
        (-num) / (-den)
    }
}

/// Where the segment crosses the horizontal grid line `y = 64 * b`,
/// rounded toward negative infinity.
pub open spec fn cross_x(p0: SpecPoint, p1: SpecPoint, b: int) -> int {
    p0.x + floor_ratio((p1.x - p0.x) * (64 * b - p0.y), p1.y - p0.y)
}

/// Where the segment crosses the vertical grid line `x = 64 * c`, rounded
/// toward negative infinity.
pub open spec fn cross_y(p0: SpecPoint, p1: SpecPoint, c: int) -> int {
    p0.y + floor_ratio((p1.y - p0.y) * (64 * c - p0.x), p1.x - p0.x)
}

/// How many pixel-row pieces the traversal of the segment visits.
pub open spec fn n_row_pieces(p0: SpecPoint, p1: SpecPoint) -> int {
    let r0 = cell_of(p0.y);
    let r1 = cell_of(p1.y);
    if p1.y > p0.y {
        if p1.y == 64 * r1 {
            r1 - r0
        } else {
            r1 - r0 + 1
        }
    } else if p1.y < p0.y {
        r0 - r1 + 1
    } else {
        1
    }
}

/// The pixel row of the traversal's `k`-th row piece.
pub open spec fn row_piece_row(p0: SpecPoint, p1: SpecPoint, k: int) -> int {
    if p1.y >= p0.y {
        cell_of(p0.y) + k
    } else {
        cell_of(p0.y) - k
    }
}

/// Where the `k`-th row piece starts.
pub open spec fn row_piece_a(p0: SpecPoint, p1: SpecPoint, k: int) -> SpecPoint {
    if k == 0 {
        p0
    } else {
        let r = row_piece_row(p0, p1, k);
        if p1.y > p0.y {
            SpecPoint { x: cross_x(p0, p1, r), y: 64 * r }
        } else {
            SpecPoint { x: cross_x(p0, p1, r + 1), y: 64 * (r + 1) }
        }
    }
}

/// Where the `k`-th row piece ends.
pub open spec fn row_piece_b(p0: SpecPoint, p1: SpecPoint, k: int) -> SpecPoint {
    if k == n_row_pieces(p0, p1) - 1 {
        p1
    } else {
        let r = row_piece_row(p0, p1, k);
        if p1.y > p0.y {
            SpecPoint { x: cross_x(p0, p1, r + 1), y: 64 * (r + 1) }
        } else {
            SpecPoint { x: cross_x(p0, p1, r), y: 64 * r }
        }
    }
}

/// How many cell pieces the row piece from `a` to `b` visits.
pub open spec fn n_col_pieces(a: SpecPoint, b: SpecPoint) -> int {
    let c0 = cell_of(a.x);
    let c1 = cell_of(b.x);
    if b.x > a.x {
        if b.x == 64 * c1 {
            c1 - c0
        } else {
            c1 - c0 + 1
        }
    } else if b.x < a.x {
        c0 - c1 + 1
    } else {
        1
    }
}

/// The pixel column of the row piece's `j`-th cell piece.
pub open spec fn col_piece_col(a: SpecPoint, b: SpecPoint, j: int) -> int {
    if b.x >= a.x {
        cell_of(a.x) + j
    } else {
        cell_of(a.x) - j
    }
}

/// Where the `j`-th cell piece starts.
pub open spec fn col_piece_a(a: SpecPoint, b: SpecPoint, j: int) -> SpecPoint {
    if j == 0 {
        a
    } else {
        let c = col_piece_col(a, b, j);
        if b.x > a.x {
            SpecPoint { x: 64 * c, y: cross_y(a, b, c) }
        } else {
            SpecPoint { x: 64 * (c + 1), y: cross_y(a, b, c + 1) }
        }
    }
}

/// Where the `j`-th cell piece ends.
pub open spec fn col_piece_b(a: SpecPoint, b: SpecPoint, j: int) -> SpecPoint {
    if j == n_col_pieces(a, b) - 1 {
        b
    } else {
        let c = col_piece_col(a, b, j);
        if b.x > a.x {
            SpecPoint { x: 64 * (c + 1), y: cross_y(a, b, c + 1) }
        } else {
            SpecPoint { x: 64 * c, y: cross_y(a, b, c) }
        }
    }
}

/// The increment one cell piece contributes: the exact trapezoidal signed
/// area swept against the cell's right edge, and the piece's height.
pub open spec fn piece_increment(q0: SpecPoint, q1: SpecPoint, c: int, r: int) -> Increment {
    let h = q1.y - q0.y;
    let right = 64 * (c + 1);
    Increment {
        x: c as i32,
        y: r as i32,
        area: (h * ((right - q0.x) + (right - q1.x))) as i64,
        height: (h * 128) as i64,
    }
}

/// The increments of one row piece, from its `j`-th cell piece on.
pub open spec fn row_incs_from(a: SpecPoint, b: SpecPoint, r: int, j: int) -> Seq<Increment>
    decreases n_col_pieces(a, b) - j,
{
    if j < 0 || j >= n_col_pieces(a, b) {
        Seq::empty()
    } else {
        seq![
            piece_increment(col_piece_a(a, b, j), col_piece_b(a, b, j), col_piece_col(a, b, j), r),
        ] + row_incs_from(a, b, r, j + 1)
    }
}

/// The increments of the segment, from its `k`-th row piece on.
pub open spec fn seg_incs_from(p0: SpecPoint, p1: SpecPoint, k: int) -> Seq<Increment>
    decreases n_row_pieces(p0, p1) - k,
{
    if k < 0 || k >= n_row_pieces(p0, p1) {
        Seq::empty()
    } else {
        row_incs_from(row_piece_a(p0, p1, k), row_piece_b(p0, p1, k), row_piece_row(p0, p1, k), 0)
            + seg_incs_from(p0, p1, k + 1)
    }
}

/// All increments of the segment; a degenerate segment contributes none.
pub open spec fn seg_incs(p0: SpecPoint, p1: SpecPoint) -> Seq<Increment> {
    if p0 == p1 {
        Seq::empty()
    } else {
        seg_incs_from(p0, p1, 0)
    }
}

/// How many pixel-row boundaries the segment crosses.
pub open spec fn n_crossings(p0: SpecPoint, p1: SpecPoint) -> int {
    if p1.y > p0.y {
        cell_of(p1.y) - cell_of(p0.y)
    } else if p1.y < p0.y {
        cell_of(p0.y) - cell_of(p1.y)
    } else {
        0
    }
}

/// The row boundary of the segment's `i`-th crossing, in traversal order.
pub open spec fn crossing_boundary(p0: SpecPoint, p1: SpecPoint, i: int) -> int {
    if p1.y > p0.y {
        cell_of(p0.y) + 1 + i
    } else {
        cell_of(p0.y) - i
    }
}

/// Whether a crossing of pixel-row boundary `b` also crosses a tile-row
/// boundary.
pub open spec fn crossing_changes_tile(b: int) -> bool {
    tile_of(b) != tile_of(b - 1)
}

/// The winding delta recorded at the segment's `i`-th crossing: the column
/// where it crosses, the lesser of the two tile rows, and the direction.
pub open spec fn crossing_tinc(p0: SpecPoint, p1: SpecPoint, i: int) -> TileIncrement {
    let b = crossing_boundary(p0, p1, i);
    TileIncrement {
        tile_x: tile_of(cell_of(cross_x(p0, p1, b))) as i32,
        tile_y: tile_of(b - 1) as i32,
        sign: if p1.y > p0.y {
            1i32
        } else {
            -1i32
        },
    }
}

/// The winding deltas of the segment, from its `i`-th crossing on.
pub open spec fn seg_tincs_from(p0: SpecPoint, p1: SpecPoint, i: int) -> Seq<TileIncrement>
    decreases n_crossings(p0, p1) - i,
{
    if i < 0 || i >= n_crossings(p0, p1) {
        Seq::empty()
    } else {
        (if crossing_changes_tile(crossing_boundary(p0, p1, i)) {
            seq![crossing_tinc(p0, p1, i)]
        } else {
            Seq::empty()
        }) + seg_tincs_from(p0, p1, i + 1)
    }
}

/// All winding deltas of the segment; a degenerate segment contributes
/// none.
pub open spec fn seg_tincs(p0: SpecPoint, p1: SpecPoint) -> Seq<TileIncrement> {
    if p0 == p1 {
        Seq::empty()
    } else {
        seg_tincs_from(p0, p1, 0)
    }
}

/// A point with coordinates in range.
pub open spec fn valid_spec_point(p: SpecPoint) -> bool {
    -0x20_0000 <= p.x <= 0x20_0000 && -0x20_0000 <= p.y <= 0x20_0000
}

/// Every coordinate lies between `64 * cell_of(v)` and the next cell
/// boundary.
proof fn lemma_cell_bounds(v: int)
    ensures
        64 * cell_of(v) <= v < 64 * (cell_of(v) + 1),
{
    lemma_fundamental_div_mod(v, 64);
    lemma_mod_division_less_than_divisor(v, 64);
}

/// For `0 <= u <= d`, the floored ratio `dx * u / d` lies between `0` and
/// `dx`.
proof fn lemma_ratio_bounds(dx: int, u: int, d: int)
    requires
        0 < d,
        0 <= u <= d,
    ensures
        dx >= 0 ==> 0 <= (dx * u) / d <= dx,
        dx <= 0 ==> dx <= (dx * u) / d <= 0,
{
    lemma_div_of0(d);
    lemma_div_multiples_vanish(dx, d);
    assert(dx * d == d * dx) by (nonlinear_arith);
    if dx >= 0 {
        assert(0 <= dx * u <= dx * d) by (nonlinear_arith)
            requires
                0 <= u <= d,
                dx >= 0,
        ;
        lemma_div_is_ordered(0, dx * u, d);
        lemma_div_is_ordered(dx * u, dx * d, d);
    } else {
        assert(dx * d <= dx * u <= 0) by (nonlinear_arith)
            requires
                0 <= u <= d,
                dx <= 0,
        ;
        lemma_div_is_ordered(dx * d, dx * u, d);
        lemma_div_is_ordered(dx * u, 0, d);
    }
}

/// The crossing with a row boundary inside the segment's vertical span
/// stays inside the segment's horizontal span.
proof fn lemma_cross_x_bounds(p0: SpecPoint, p1: SpecPoint, b: int)
    requires
        p0.y != p1.y,
        p1.y > p0.y ==> p0.y <= 64 * b <= p1.y,
        p1.y < p0.y ==> p1.y <= 64 * b <= p0.y,
    ensures
        p0.x <= p1.x ==> p0.x <= cross_x(p0, p1, b) <= p1.x,
        p1.x < p0.x ==> p1.x <= cross_x(p0, p1, b) <= p0.x,
{
    let dx = p1.x - p0.x;
    let dy = p1.y - p0.y;
    if dy > 0 {
        lemma_ratio_bounds(dx, 64 * b - p0.y, dy);
    } else {
        assert((-(dx * (64 * b - p0.y))) == dx * (p0.y - 64 * b)) by (nonlinear_arith);
        lemma_ratio_bounds(dx, p0.y - 64 * b, -dy);
    }
}

/// The crossing with a column boundary inside the row piece's horizontal
/// span stays inside its vertical span.
proof fn lemma_cross_y_bounds(p0: SpecPoint, p1: SpecPoint, c: int)
    requires
        p0.x != p1.x,
        p1.x > p0.x ==> p0.x <= 64 * c <= p1.x,
        p1.x < p0.x ==> p1.x <= 64 * c <= p0.x,
    ensures
        p0.y <= p1.y ==> p0.y <= cross_y(p0, p1, c) <= p1.y,
        p1.y < p0.y ==> p1.y <= cross_y(p0, p1, c) <= p0.y,
{
    let dx = p1.x - p0.x;
    let dy = p1.y - p0.y;
    if dx > 0 {
        lemma_ratio_bounds(dy, 64 * c - p0.x, dx);
    } else {
        assert((-(dy * (64 * c - p0.x))) == dy * (p0.x - 64 * c)) by (nonlinear_arith);
        lemma_ratio_bounds(dy, p0.x - 64 * c, -dx);
    }
}

/// The shared facts about a row piece: its row, endpoint bands, and
/// endpoint horizontal range.
proof fn lemma_row_piece_props(p0: SpecPoint, p1: SpecPoint, k: int)
    requires
        valid_spec_point(p0),
        valid_spec_point(p1),
        !(p0 == p1),
        0 <= k < n_row_pieces(p0, p1),
    ensures
        ({
            let r = row_piece_row(p0, p1, k);
            let a = row_piece_a(p0, p1, k);
            let b = row_piece_b(p0, p1, k);
            &&& 64 * r <= a.y <= 64 * (r + 1)
            &&& 64 * r <= b.y <= 64 * (r + 1)
            &&& (if p0.x <= p1.x {
                p0.x <= a.x <= p1.x && p0.x <= b.x <= p1.x
            } else {
                p1.x <= a.x <= p0.x && p1.x <= b.x <= p0.x
            })
            &&& -0x8000 <= r <= 0x8000
        }),
{
    let r0 = cell_of(p0.y);
    let r1 = cell_of(p1.y);
    let r = row_piece_row(p0, p1, k);
    let a = row_piece_a(p0, p1, k);
    let b = row_piece_b(p0, p1, k);
    lemma_cell_bounds(p0.y);
    lemma_cell_bounds(p1.y);
    lemma_cell_bounds(0x20_0000);
    lemma_cell_bounds(-0x20_0000);
    lemma_div_is_ordered(-0x20_0000, p0.y, 64);
    lemma_div_is_ordered(p0.y, 0x20_0000, 64);
    lemma_div_is_ordered(-0x20_0000, p1.y, 64);
    lemma_div_is_ordered(p1.y, 0x20_0000, 64);
    if p1.y > p0.y {
        if k > 0 {
            lemma_cross_x_bounds(p0, p1, r);
        }
        if k < n_row_pieces(p0, p1) - 1 {
            lemma_cross_x_bounds(p0, p1, r + 1);
        }
    } else if p1.y < p0.y {
        if k > 0 {
            lemma_cross_x_bounds(p0, p1, r + 1);
        }
        if k < n_row_pieces(p0, p1) - 1 {
            lemma_cross_x_bounds(p0, p1, r);
        }
    }
}

/// The shared facts about a cell piece of a row piece in row `r`: its
/// column, endpoint bands on both axes, and its increment's validity.
proof fn lemma_col_piece_props(a: SpecPoint, b: SpecPoint, r: int, j: int)
    requires
        valid_spec_point(a),
        valid_spec_point(b),
        64 * r <= a.y <= 64 * (r + 1),
        64 * r <= b.y <= 64 * (r + 1),
        0 <= j < n_col_pieces(a, b),
    ensures
        ({
            let c = col_piece_col(a, b, j);
            let qa = col_piece_a(a, b, j);
            let qb = col_piece_b(a, b, j);
            &&& 64 * c <= qa.x <= 64 * (c + 1)
            &&& 64 * c <= qb.x <= 64 * (c + 1)
            &&& 64 * r <= qa.y <= 64 * (r + 1)
            &&& 64 * r <= qb.y <= 64 * (r + 1)
            &&& -0x8000 <= c <= 0x8000
        }),
{
    let c0 = cell_of(a.x);
    let c1 = cell_of(b.x);
    let c = col_piece_col(a, b, j);
    let qa = col_piece_a(a, b, j);
    let qb = col_piece_b(a, b, j);
    lemma_cell_bounds(a.x);
    lemma_cell_bounds(b.x);
    lemma_div_is_ordered(-0x20_0000, a.x, 64);
    lemma_div_is_ordered(a.x, 0x20_0000, 64);
    lemma_div_is_ordered(-0x20_0000, b.x, 64);
    lemma_div_is_ordered(b.x, 0x20_0000, 64);
    lemma_cell_bounds(0x20_0000);
    lemma_cell_bounds(-0x20_0000);
    if b.x > a.x {
        if j > 0 {
            lemma_cross_y_bounds(a, b, c);
        }
        if j < n_col_pieces(a, b) - 1 {
            lemma_cross_y_bounds(a, b, c + 1);
        }
    } else if b.x < a.x {
        if j > 0 {
            lemma_cross_y_bounds(a, b, c + 1);
        }
        if j < n_col_pieces(a, b) - 1 {
            lemma_cross_y_bounds(a, b, c);
        }
    }
}

/// Computes `cross_x` in executable code, staying within the segment's
/// horizontal span.
fn cross_x_exec(p0: PointFx, p1: PointFx, b: i64) -> (r: i32)
    requires
        valid_point(p0),
        valid_point(p1),
        p0.y != p1.y,
        p1.y > p0.y ==> p0.y <= 64 * b <= p1.y,
        p1.y < p0.y ==> p1.y <= 64 * b <= p0.y,
    ensures
        r as int == cross_x(p0.sp(), p1.sp(), b as int),
        p0.x <= p1.x ==> p0.x <= r <= p1.x,
        p1.x < p0.x ==> p1.x <= r <= p0.x,
{
    let dx: i64 = p1.x as i64 - p0.x as i64;
    let dy: i64 = p1.y as i64 - p0.y as i64;
    proof {
        assert(-0x40_0001 <= 64 * b - p0.y <= 0x40_0001);
        assert(-0x2000_0000_0000 <= dx as int * (64 * b - p0.y as int) <= 0x2000_0000_0000)
            by (nonlinear_arith)
            requires
                -0x40_0001 <= dx as int <= 0x40_0001,
                -0x40_0001 <= 64 * b - p0.y as int <= 0x40_0001,
        ;
        lemma_cross_x_bounds(p0.sp(), p1.sp(), b as int);
    }
    let num: i64 = dx * (64 * b - p0.y as i64);
    let q: i64 = if dy > 0 {
        floor_div(num, dy)
    } else {
        floor_div(-num, -dy)
    };
    (p0.x as i64 + q) as i32
}

/// Computes `cross_y` in executable code, staying within the piece's
/// vertical span.
fn cross_y_exec(p0: PointFx, p1: PointFx, c: i64) -> (r: i32)
    requires
        valid_point(p0),
        valid_point(p1),
        p0.x != p1.x,
        p1.x > p0.x ==> p0.x <= 64 * c <= p1.x,
        p1.x < p0.x ==> p1.x <= 64 * c <= p0.x,
    ensures
        r as int == cross_y(p0.sp(), p1.sp(), c as int),
        p0.y <= p1.y ==> p0.y <= r <= p1.y,
        p1.y < p0.y ==> p1.y <= r <= p0.y,
{
    let dx: i64 = p1.x as i64 - p0.x as i64;
    let dy: i64 = p1.y as i64 - p0.y as i64;
    proof {
        assert(-0x40_0001 <= 64 * c - p0.x <= 0x40_0001);
        assert(-0x2000_0000_0000 <= dy as int * (64 * c - p0.x as int) <= 0x2000_0000_0000)
            by (nonlinear_arith)
            requires
                -0x40_0001 <= dy as int <= 0x40_0001,
                -0x40_0001 <= 64 * c - p0.x as int <= 0x40_0001,
        ;
        lemma_cross_y_bounds(p0.sp(), p1.sp(), c as int);
    }
    let num: i64 = dy * (64 * c - p0.x as i64);
    let q: i64 = if dx > 0 {
        floor_div(num, dx)
    } else {
        floor_div(-num, -dx)
    };
    (p0.y as i64 + q) as i32
}

/// Records the increments of one row piece, in cell order.
#[verifier::loop_isolation(false)]
#[verifier::rlimit(60)]
fn push_row_piece(incs: &mut Vec<Increment>, a: PointFx, b: PointFx, r: i64)
    requires
        valid_point(a),
        valid_point(b),
        -0x8000 <= r <= 0x8000,
        64 * r <= a.y as int <= 64 * (r + 1),
        64 * r <= b.y as int <= 64 * (r + 1),
        forall|i: int| 0 <= i < old(incs)@.len() ==> valid_increment(#[trigger] old(incs)@[i]),
    ensures
        final(incs)@ == old(incs)@ + row_incs_from(a.sp(), b.sp(), r as int, 0),
        forall|i: int| 0 <= i < final(incs)@.len() ==> valid_increment(#[trigger] final(incs)@[i]),
{
    proof {
        lemma_cell_bounds(a.x as int);
        lemma_cell_bounds(b.x as int);
        assert((-0x20_0000int) / 64 == -0x8000);
        assert(0x20_0000int / 64 == 0x8000);
        lemma_div_is_ordered(-0x20_0000, a.x as int, 64);
        lemma_div_is_ordered(a.x as int, 0x20_0000, 64);
        lemma_div_is_ordered(-0x20_0000, b.x as int, 64);
        lemma_div_is_ordered(b.x as int, 0x20_0000, 64);
    }
    let c0: i64 = floor_div(a.x as i64, 64);
    let c1: i64 = floor_div(b.x as i64, 64);
    let n_cols: i64 = if b.x > a.x {
        if (b.x as i64) == 64 * c1 {
            c1 - c0
        } else {
            c1 - c0 + 1
        }
    } else if b.x < a.x {
        c0 - c1 + 1
    } else {
        1
    };
    proof {
        assert(n_cols == n_col_pieces(a.sp(), b.sp()));
        assert(n_cols >= 1);
    }
    let mut j: i64 = 0;
    while j < n_cols
        invariant
            0 <= j <= n_cols,
            incs@ + row_incs_from(a.sp(), b.sp(), r as int, j as int) == old(incs)@
                + row_incs_from(a.sp(), b.sp(), r as int, 0),
            forall|i: int| 0 <= i < incs@.len() ==> valid_increment(#[trigger] incs@[i]),
        decreases n_cols - j,
    {
        proof {
            lemma_col_piece_props(a.sp(), b.sp(), r as int, j as int);
        }
        let c: i64 = if b.x >= a.x {
            c0 + j
        } else {
            c0 - j
        };
        let qa: PointFx;
        if j == 0 {
            qa = a;
        } else if b.x > a.x {
            let qay = cross_y_exec(a, b, c);
            qa = PointFx { x: (64 * c) as i32, y: qay };
        } else {
            let qay = cross_y_exec(a, b, c + 1);
            qa = PointFx { x: (64 * (c + 1)) as i32, y: qay };
        }
        let qb: PointFx;
        if j == n_cols - 1 {
            qb = b;
        } else if b.x > a.x {
            let qby = cross_y_exec(a, b, c + 1);
            qb = PointFx { x: (64 * (c + 1)) as i32, y: qby };
        } else {
            let qby = cross_y_exec(a, b, c);
            qb = PointFx { x: (64 * c) as i32, y: qby };
        }
        proof {
            assert(c == col_piece_col(a.sp(), b.sp(), j as int));
            assert(qa.sp() == col_piece_a(a.sp(), b.sp(), j as int));
            assert(qb.sp() == col_piece_b(a.sp(), b.sp(), j as int));
            assert(64 * c <= qa.x as int <= 64 * (c + 1));
            assert(64 * c <= qb.x as int <= 64 * (c + 1));
            assert(64 * r <= qa.y as int <= 64 * (r + 1));
            assert(64 * r <= qb.y as int <= 64 * (r + 1));
        }
        let h: i64 = qb.y as i64 - qa.y as i64;
        let right: i64 = 64 * (c + 1);
        let sum: i64 = (right - qa.x as i64) + (right - qb.x as i64);
        proof {
            assert(-64 <= h <= 64);
            assert(0 <= sum <= 128);
            assert(-8192 <= h * sum <= 8192) by (nonlinear_arith)
                requires
                    -64 <= h <= 64,
                    0 <= sum <= 128,
            ;
        }
        let area: i64 = h * sum;
        let inc = Increment { x: c as i32, y: r as i32, area, height: h * 128 };
        let ghost before = incs@;
        proof {
            assert(inc == piece_increment(
                col_piece_a(a.sp(), b.sp(), j as int),
                col_piece_b(a.sp(), b.sp(), j as int),
                c as int,
                r as int,
            ));
            assert(valid_increment(inc));
        }
        incs.push(inc);
        proof {
            assert(row_incs_from(a.sp(), b.sp(), r as int, j as int) == seq![inc]
                + row_incs_from(a.sp(), b.sp(), r as int, j as int + 1));
            assert(incs@ + row_incs_from(a.sp(), b.sp(), r as int, j as int + 1) =~= before
                + row_incs_from(a.sp(), b.sp(), r as int, j as int));
        }
        j = j + 1;
    }
    proof {
        assert(row_incs_from(a.sp(), b.sp(), r as int, n_cols as int)
            =~= Seq::<Increment>::empty());
        assert(incs@ + Seq::<Increment>::empty() =~= incs@);
    }
}

/// Records the winding deltas of one segment, in traversal order.
#[verifier::loop_isolation(false)]
#[verifier::rlimit(60)]
fn push_seg_tincs(tincs: &mut Vec<TileIncrement>, p0: PointFx, p1: PointFx, r0: i64, r1: i64)
    requires
        valid_point(p0),
        valid_point(p1),
        !(p0.sp() == p1.sp()),
        r0 == cell_of(p0.sp().y),
        r1 == cell_of(p1.sp().y),
        forall|i: int|
            0 <= i < old(tincs)@.len() ==> valid_tile_increment(#[trigger] old(tincs)@[i]),
    ensures
        final(tincs)@ == old(tincs)@ + seg_tincs(p0.sp(), p1.sp()),
        forall|i: int|
            0 <= i < final(tincs)@.len() ==> valid_tile_increment(#[trigger] final(tincs)@[i]),
{
    let ghost g0 = p0.sp();
    let ghost g1 = p1.sp();
    proof {
        lemma_cell_bounds(g0.y);
        lemma_cell_bounds(g1.y);
        assert((-0x20_0000int) / 64 == -0x8000);
        assert(0x20_0000int / 64 == 0x8000);
        lemma_div_is_ordered(-0x20_0000, g0.y, 64);
        lemma_div_is_ordered(g0.y, 0x20_0000, 64);
        lemma_div_is_ordered(-0x20_0000, g1.y, 64);
        lemma_div_is_ordered(g1.y, 0x20_0000, 64);
    }
    let n_cross: i64 = if p1.y > p0.y {
        r1 - r0
    } else if p1.y < p0.y {
        r0 - r1
    } else {
        0
    };
    proof {
        assert(n_cross == n_crossings(g0, g1));
    }
    let mut i: i64 = 0;
    while i < n_cross
        invariant
            0 <= i <= n_cross,
            tincs@ + seg_tincs_from(g0, g1, i as int) == old(tincs)@ + seg_tincs_from(g0, g1, 0),
            forall|m: int| 0 <= m < tincs@.len() ==> valid_tile_increment(#[trigger] tincs@[m]),
        decreases n_cross - i,
    {
        let bb: i64 = if p1.y > p0.y {
            r0 + 1 + i
        } else {
            r0 - i
        };
        proof {
            assert(bb == crossing_boundary(g0, g1, i as int));
        }
        let tb: i64 = floor_div(bb, 8);
        let tb1: i64 = floor_div(bb - 1, 8);
        let ghost before_t = tincs@;
        if tb != tb1 {
            let cx = cross_x_exec(p0, p1, bb);
            proof {
                lemma_cell_bounds(cx as int);
                assert((-0x20_0000int) / 64 == -0x8000);
                assert(0x20_0000int / 64 == 0x8000);
                lemma_div_is_ordered(-0x20_0000, cx as int, 64);
                lemma_div_is_ordered(cx as int, 0x20_0000, 64);
            }
            let cell: i64 = floor_div(cx as i64, 64);
            proof {
                assert((-0x8000int) / 8 == -0x1000);
                assert(0x8000int / 8 == 0x1000);
                lemma_div_is_ordered(-0x8000, cell as int, 8);
                lemma_div_is_ordered(cell as int, 0x8000, 8);
            }
            let tx: i64 = floor_div(cell, 8);
            let t = TileIncrement {
                tile_x: tx as i32,
                tile_y: tb1 as i32,
                sign: if p1.y > p0.y {
                    1
                } else {
                    -1
                },
            };
            proof {
                assert(t == crossing_tinc(g0, g1, i as int));
                assert(valid_tile_increment(t));
                assert(crossing_changes_tile(bb as int));
            }
            tincs.push(t);
            proof {
                assert(seg_tincs_from(g0, g1, i as int) == seq![t] + seg_tincs_from(
                    g0,
                    g1,
                    i as int + 1,
                ));
                assert(tincs@ + seg_tincs_from(g0, g1, i as int + 1) =~= before_t
                    + seg_tincs_from(g0, g1, i as int));
            }
        } else {
            proof {
                assert(!crossing_changes_tile(bb as int));
                assert(seg_tincs_from(g0, g1, i as int) =~= Seq::<TileIncrement>::empty()
                    + seg_tincs_from(g0, g1, i as int + 1));
                assert(tincs@ + seg_tincs_from(g0, g1, i as int + 1) =~= before_t
                    + seg_tincs_from(g0, g1, i as int));
            }
        }
        i = i + 1;
    }
    proof {
        assert(seg_tincs_from(g0, g1, n_cross as int) =~= Seq::<TileIncrement>::empty());
        assert(tincs@ + Seq::<TileIncrement>::empty() =~= tincs@);
    }
}

/// The tile bounding box of a set of increments.
#[derive(Debug, Clone, Copy, PartialEq, Eq, Structural)]
pub struct TileRange {
    pub top: i32,
    pub left: i32,
    pub bottom: i32,
    pub right: i32,
}

/// One fold step of the bounding-box computation.
pub open spec fn range_step(acc: TileRange, inc: Increment) -> TileRange {
    let tx = tile_of(inc.x as int);
    let ty = tile_of(inc.y as int);
    TileRange {
        left: (if tx < acc.left {
            tx
        } else {
            acc.left as int
        }) as i32,
        right: (if tx + 1 > acc.right {
            tx + 1
        } else {
            acc.right as int
        }) as i32,
        top: (if ty < acc.top {
            ty
        } else {
            acc.top as int
        }) as i32,
        bottom: (if ty + 1 > acc.bottom {
            ty + 1
        } else {
            acc.bottom as int
        }) as i32,
    }
}

/// The bounding box folded over the increments from index `i` on.
pub open spec fn range_fold(incs: Seq<Increment>, i: int, acc: TileRange) -> TileRange
    decreases incs.len() - i,
{
    if i < 0 || i >= incs.len() {
        acc
    } else {
        range_fold(incs, i + 1, range_step(acc, incs[i]))
    }
}

/// The empty bounding box the fold starts from.
pub open spec fn range_empty() -> TileRange {
    TileRange { top: i32::MAX, left: i32::MAX, bottom: i32::MIN, right: i32::MIN }
}

/// Accumulates signed-area increments and tile-row winding deltas for one
/// path at a time; `begin` resets it, segments add increments, and the
/// sweep in `end` turns them into tile coverage.
pub struct Rasterizer {
    pub start: PointFx,
    pub cur: PointFx,
    pub increments: Vec<Increment>,
    pub tile_increments: Vec<TileIncrement>,
}

impl Rasterizer {
    /// Positions in range and every recorded increment within bounds.
    pub open spec fn wf(self) -> bool {
        &&& valid_point(self.start)
        &&& valid_point(self.cur)
        &&& forall|i: int|
            0 <= i < self.increments@.len() ==> valid_increment(#[trigger] self.increments@[i])
        &&& forall|i: int|
            0 <= i < self.tile_increments@.len() ==> valid_tile_increment(
                #[trigger] self.tile_increments@[i],
            )
    }

    /// A rasterizer at the origin with nothing recorded.
    pub fn new() -> (r: Self)
        ensures
            r.wf(),
            r.increments@.len() == 0,
            r.tile_increments@.len() == 0,
            r.start == (PointFx { x: 0, y: 0 }),
            r.cur == (PointFx { x: 0, y: 0 }),
    {
        Rasterizer {
            start: PointFx { x: 0, y: 0 },
            cur: PointFx { x: 0, y: 0 },
            increments: Vec::new(),
            tile_increments: Vec::new(),
        }
    }

    /// The current subpath's starting point.
    pub fn current_point(&self) -> (r: PointFx)
        ensures
            r == self.start,
    {
        self.start
    }

    /// Clears all recorded state for a fresh path.
    pub fn begin(&mut self)
        requires
            old(self).wf(),
        ensures
            final(self).wf(),
            final(self).increments@.len() == 0,
            final(self).tile_increments@.len() == 0,
            final(self).start == old(self).start,
            final(self).cur == old(self).cur,
    {
        self.increments.clear();
        self.tile_increments.clear();
    }

    /// Starts a new subpath at `to`.
    pub fn move_to(&mut self, to: PointFx)
        requires
            old(self).wf(),
            valid_point(to),
        ensures
            final(self).wf(),
            final(self).start == to,
            final(self).cur == to,
            final(self).increments@ == old(self).increments@,
            final(self).tile_increments@ == old(self).tile_increments@,
    {
        self.start = to;
        self.cur = to;
    }

    /// Walks the segment from the current position to `to`, recording one
    /// increment per pixel cell crossed and one winding delta per tile-row
    /// crossing; a zero-length segment records nothing.
    #[verifier::loop_isolation(false)]
    #[verifier::rlimit(60)]
    pub fn line_to(&mut self, to: PointFx)
        requires
            old(self).wf(),
            valid_point(to),
        ensures
            final(self).wf(),
            final(self).start == old(self).start,
            final(self).cur == to,
            final(self).increments@ == old(self).increments@ + seg_incs(
                old(self).cur.sp(),
                to.sp(),
            ),
            final(self).tile_increments@ == old(self).tile_increments@ + seg_tincs(
                old(self).cur.sp(),
                to.sp(),
            ),
    {
        if self.cur.x == to.x && self.cur.y == to.y {
            proof {
                assert(self.cur.sp() == to.sp());
                assert(self.increments@ + seg_incs(self.cur.sp(), to.sp()) =~= self.increments@);
                assert(self.tile_increments@ + seg_tincs(self.cur.sp(), to.sp())
                    =~= self.tile_increments@);
            }
            return ;
        }
        let p0 = self.cur;
        let p1 = to;
        let ghost g0 = p0.sp();
        let ghost g1 = p1.sp();
        proof {
            assert(!(g0 == g1));
            lemma_cell_bounds(g0.y);
            lemma_cell_bounds(g1.y);
            assert((-0x20_0000int) / 64 == -0x8000);
            assert(0x20_0000int / 64 == 0x8000);
            lemma_div_is_ordered(-0x20_0000, g0.y, 64);
            lemma_div_is_ordered(g0.y, 0x20_0000, 64);
            lemma_div_is_ordered(-0x20_0000, g1.y, 64);
            lemma_div_is_ordered(g1.y, 0x20_0000, 64);
        }
        let r0: i64 = floor_div(p0.y as i64, 64);
        let r1: i64 = floor_div(p1.y as i64, 64);
        let n_rows: i64 = if p1.y > p0.y {
            if (p1.y as i64) == 64 * r1 {
                r1 - r0
            } else {
                r1 - r0 + 1
            }
        } else if p1.y < p0.y {
            r0 - r1 + 1
        } else {
            1
        };
        proof {
            assert(n_rows == n_row_pieces(g0, g1));
            assert(n_rows >= 1);
        }
        let mut k: i64 = 0;
        while k < n_rows
            invariant
                0 <= k <= n_rows,
                self.cur == old(self).cur,
                self.start == old(self).start,
                self.tile_increments@ == old(self).tile_increments@,
                self.increments@ + seg_incs_from(g0, g1, k as int) == old(self).increments@
                    + seg_incs_from(g0, g1, 0),
                forall|i: int|
                    0 <= i < self.increments@.len() ==> valid_increment(
                        #[trigger] self.increments@[i],
                    ),
            decreases n_rows - k,
        {
            proof {
                lemma_row_piece_props(g0, g1, k as int);
            }
            let r: i64 = if p1.y >= p0.y {
                r0 + k
            } else {
                r0 - k
            };
            let a: PointFx;
            if k == 0 {
                a = p0;
            } else if p1.y > p0.y {
                let ax = cross_x_exec(p0, p1, r);
                a = PointFx { x: ax, y: (64 * r) as i32 };
            } else {
                let ax = cross_x_exec(p0, p1, r + 1);
                a = PointFx { x: ax, y: (64 * (r + 1)) as i32 };
            }
            let b: PointFx;
            if k == n_rows - 1 {
                b = p1;
            } else if p1.y > p0.y {
                let bx = cross_x_exec(p0, p1, r + 1);
                b = PointFx { x: bx, y: (64 * (r + 1)) as i32 };
            } else {
                let bx = cross_x_exec(p0, p1, r);
                b = PointFx { x: bx, y: (64 * r) as i32 };
            }
            proof {
                assert(r == row_piece_row(g0, g1, k as int));
                assert(a.sp() == row_piece_a(g0, g1, k as int));
                assert(b.sp() == row_piece_b(g0, g1, k as int));
                assert(valid_point(a));
                assert(valid_point(b));
                assert(64 * r <= a.y as int <= 64 * (r + 1));
                assert(64 * r <= b.y as int <= 64 * (r + 1));
            }
            let ghost before_row = self.increments@;
            push_row_piece(&mut self.increments, a, b, r);
            proof {
                assert(seg_incs_from(g0, g1, k as int) == row_incs_from(
                    row_piece_a(g0, g1, k as int),
                    row_piece_b(g0, g1, k as int),
                    row_piece_row(g0, g1, k as int),
                    0,
                ) + seg_incs_from(g0, g1, k as int + 1));
                assert(self.increments@ + seg_incs_from(g0, g1, k as int + 1) =~= before_row
                    + seg_incs_from(g0, g1, k as int));
            }
            k = k + 1;
        }
        proof {
            assert(seg_incs_from(g0, g1, n_rows as int) =~= Seq::<Increment>::empty());
            assert(self.increments@ + Seq::<Increment>::empty() =~= self.increments@);
            assert(self.increments@ == old(self).increments@ + seg_incs_from(g0, g1, 0));
        }
        push_seg_tincs(&mut self.tile_increments, p0, p1, r0, r1);
        self.cur = p1;
    }

    /// Closes the subpath: a segment back to its starting point, if the
    /// current position has left it.
    pub fn close(&mut self)
        requires
            old(self).wf(),
        ensures
            final(self).wf(),
            final(self).start == old(self).start,
            final(self).cur == old(self).start,
            final(self).increments@ == old(self).increments@ + seg_incs(
                old(self).cur.sp(),
                old(self).start.sp(),
            ),
            final(self).tile_increments@ == old(self).tile_increments@ + seg_tincs(
                old(self).cur.sp(),
                old(self).start.sp(),
            ),
    {
        let s = self.start;
        if self.cur.x != s.x || self.cur.y != s.y {
            self.line_to(s);
        } else {
            proof {
                assert(self.cur == s);
                assert(self.cur.sp() == s.sp());
                assert(self.increments@ + seg_incs(self.cur.sp(), s.sp()) =~= self.increments@);
                assert(self.tile_increments@ + seg_tincs(self.cur.sp(), s.sp())
                    =~= self.tile_increments@);
            }
        }
    }

    /// The tile bounding box of everything recorded so far.
    #[verifier::loop_isolation(false)]
    pub fn range(&self) -> (r: TileRange)
        requires
            self.wf(),
        ensures
            r == range_fold(self.increments@, 0, range_empty()),
    {
        let mut acc = TileRange { top: i32::MAX, left: i32::MAX, bottom: i32::MIN, right: i32::MIN };
        let n = self.increments.len();
        let mut i: usize = 0;
        while i < n
            invariant
                0 <= i <= n,
                n == self.increments@.len(),
                range_fold(self.increments@, i as int, acc) == range_fold(
                    self.increments@,
                    0,
                    range_empty(),
                ),
            decreases n - i,
        {
            let inc = self.increments[i];
            let tx = floor_div(inc.x as i64, 8) as i32;
            let ty = floor_div(inc.y as i64, 8) as i32;
            let stepped = TileRange {
                left: if tx < acc.left {
                    tx
                } else {
                    acc.left
                },
                right: if tx + 1 > acc.right {
                    tx + 1
                } else {
                    acc.right
                },
                top: if ty < acc.top {
                    ty
                } else {
                    acc.top
                },
                bottom: if ty + 1 > acc.bottom {
                    ty + 1
                } else {
                    acc.bottom
                },
            };
            proof {
                assert(stepped == range_step(acc, self.increments@[i as int]));
            }
            acc = stepped;
            i = i + 1;
        }
        acc
    }
}

} // verus!
