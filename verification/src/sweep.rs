//! The sweep that turns sorted increments into tile coverage. Tiles are
//! visited row-major; per-pixel signed areas accumulate left to right with
//! a carry between tiles of the same row, coverage bytes follow the
//! non-zero fill rule, fully covered tiles coalesce into solid runs,
//! covered gaps between populated tiles become solid runs by consulting
//! the tile-row winding deltas, and empty tiles are dropped.

use vstd::prelude::*;
use crate::num::{sat_add, spec_sat, SAT_LIMIT};
use crate::raster::{
    Increment, TileIncrement, tile_of, valid_increment, valid_tile_increment,
};

verus! {

/// One 8x8 coverage mask, row-major, 64 bytes.
pub struct TileMask {
    pub bytes: Vec<u8>,
}

impl TileMask {
    /// Exactly one byte per pixel of an 8x8 tile.
    pub open spec fn wf(self) -> bool {
        self.bytes@.len() == 64
    }
}

/// What the sweep hands an encoder, in order.
pub enum TileEvent {
    /// A horizontal run of fully covered tiles in tile row `y`, spanning
    /// tile columns `x0` (inclusive) to `x1` (exclusive).
    Solid { y: int, x0: int, x1: int },
    /// One partially covered tile with its 64 coverage bytes.
    Mask { y: int, x: int, bytes: Seq<u8> },
}

/// Receives the sweep's output; the ghost event trace pins down exactly
/// what was received and in which order.
pub trait Encoder {
    /// The events received so far.
    spec fn events(&self) -> Seq<TileEvent>;

    /// Receives a solid run covering tile columns `x.start .. x.end` of
    /// tile row `y`.
    fn solid(&mut self, y: i16, x: core::ops::Range<i16>)
        requires
            x.start < x.end,
        ensures
            final(self).events() == old(self).events().push(
                TileEvent::Solid { y: y as int, x0: x.start as int, x1: x.end as int },
            ),
    ;

    /// Receives one mask tile at tile column `x` of tile row `y`.
    fn mask(&mut self, y: i16, x: i16, mask: TileMask)
        requires
            mask.wf(),
        ensures
            final(self).events() == old(self).events().push(
                TileEvent::Mask { y: y as int, x: x as int, bytes: mask.bytes@ },
            ),
    ;
}

/// The values of a vector of accumulators, as integers.
pub open spec fn ints_of(s: Seq<i64>) -> Seq<int> {
    Seq::new(s.len(), |i: int| s[i] as int)
}

/// `n` zeroed accumulators.
pub open spec fn zeros(n: int) -> Seq<int> {
    Seq::new(n as nat, |i: int| 0int)
}

/// Whether two increments fall in the same tile.
pub open spec fn same_tile(a: Increment, b: Increment) -> bool {
    tile_of(a.x as int) == tile_of(b.x as int) && tile_of(a.y as int) == tile_of(b.y as int)
}

/// The end of the run of increments sharing index `i`'s tile.
pub open spec fn group_end(incs: Seq<Increment>, i: int) -> int
    decreases incs.len() - i,
{
    if i < 0 || i >= incs.len() {
        i
    } else if i + 1 < incs.len() && same_tile(incs[i], incs[i + 1]) {
        group_end(incs, i + 1)
    } else {
        i + 1
    }
}

/// A group runs past its start, no further than the end, stays within one
/// tile, and stops right before a tile change.
pub proof fn lemma_group_end_props(incs: Seq<Increment>, i: int)
    requires
        0 <= i < incs.len(),
    ensures
        i < group_end(incs, i) <= incs.len(),
        forall|m: int| i <= m < group_end(incs, i) ==> same_tile(incs[i], #[trigger] incs[m]),
        group_end(incs, i) < incs.len() ==> !same_tile(incs[i], incs[group_end(incs, i)]),
    decreases incs.len() - i,
{
    if i + 1 < incs.len() && same_tile(incs[i], incs[i + 1]) {
        lemma_group_end_props(incs, i + 1);
    }
}

/// The pixel index of an increment inside its tile, row-major.
pub open spec fn local_index(i: Increment) -> int {
    (i.y - 8 * tile_of(i.y as int)) * 8 + (i.x - 8 * tile_of(i.x as int))
}

/// Areas of one tile's pixels after accumulating increments `i .. j`,
/// saturating.
pub open spec fn acc_areas(incs: Seq<Increment>, i: int, j: int, areas: Seq<int>) -> Seq<int>
    decreases j - i,
{
    if i >= j {
        areas
    } else {
        let idx = local_index(incs[i]);
        acc_areas(incs, i + 1, j, areas.update(idx, spec_sat(areas[idx] + incs[i].area)))
    }
}

/// Heights of one tile's pixels after accumulating increments `i .. j`,
/// saturating.
pub open spec fn acc_heights(incs: Seq<Increment>, i: int, j: int, heights: Seq<int>) -> Seq<int>
    decreases j - i,
{
    if i >= j {
        heights
    } else {
        let idx = local_index(incs[i]);
        acc_heights(incs, i + 1, j, heights.update(idx, spec_sat(heights[idx] + incs[i].height)))
    }
}

/// The running coverage at pixel row `y`, column `x`, carried in from
/// `prev_y` and accumulated over the heights left of `x`.
pub open spec fn row_acc(prev_y: int, heights: Seq<int>, y: int, x: int) -> int
    decreases x,
{
    if x <= 0 {
        prev_y
    } else {
        spec_sat(row_acc(prev_y, heights, y, x - 1) + heights[y * 8 + (x - 1)])
    }
}

/// The coverage byte for an accumulated signed coverage: 256 times its
/// absolute value, in 1/8192 units, clamped to 255.
pub open spec fn cov_byte(acc: int) -> u8 {
    let a = if acc < 0 {
        -acc
    } else {
        acc
    };
    if a / 32 >= 255 {
        255u8
    } else {
        (a / 32) as u8
    }
}

/// The 64 coverage bytes of one tile.
pub open spec fn tile_bytes(prev: Seq<int>, areas: Seq<int>, heights: Seq<int>) -> Seq<u8> {
    Seq::new(
        64,
        |i: int|
            cov_byte(
                spec_sat(row_acc(prev[i / 8], heights, i / 8, i % 8) + areas[i]),
            ),
    )
}

/// The carry each pixel row hands to the tile on its right.
pub open spec fn next_carry(prev: Seq<int>, heights: Seq<int>) -> Seq<int> {
    Seq::new(8, |y: int| row_acc(prev[y], heights, y, 8))
}

/// Whether every coverage byte is zero.
pub open spec fn all_zero(bytes: Seq<u8>) -> bool {
    forall|i: int| 0 <= i < bytes.len() ==> bytes[i] == 0
}

/// Whether every coverage byte is full.
pub open spec fn all_full(bytes: Seq<u8>) -> bool {
    forall|i: int| 0 <= i < bytes.len() ==> bytes[i] == 255
}

/// Accumulated coverage of one full pixel or more saturates the coverage
/// byte. Two overlapping same-direction shapes double the accumulated
/// winding, so wherever a single shape already covers fully, the doubled
/// coverage clamps to the same byte, and the sweep classifies the tile
/// the same way.
pub proof fn lemma_full_coverage_clamps(acc: int)
    requires
        acc >= 8192 || acc <= -8192,
    ensures
        cov_byte(spec_sat(acc)) == 255,
{
    let v = spec_sat(acc);
    let a = if v < 0 {
        -v
    } else {
        v
    };
    assert(a >= 8192);
    assert(8192int / 32 == 256);
    vstd::arithmetic::div_mod::lemma_div_is_ordered(8192, a, 32);
}

/// Doubling the accumulated winding leaves the coverage byte unchanged
/// wherever a cell is empty or fully covered — the situation everywhere
/// when two identical same-direction shapes with whole-pixel edges
/// overlap. A cell only partially covered (a shape with subpixel edges)
/// genuinely darkens when doubled, so such cells are left out.
pub proof fn lemma_double_winding_clamps(acc: int)
    requires
        acc == 0 || acc >= 8192 || acc <= -8192,
    ensures
        cov_byte(spec_sat(2 * acc)) == cov_byte(spec_sat(acc)),
{
    if acc != 0 {
        lemma_full_coverage_clamps(acc);
        lemma_full_coverage_clamps(2 * acc);
    }
}

/// A solid run being grown, not yet handed to the encoder.
pub struct PendingRun {
    pub y: int,
    pub x0: int,
    pub x1: int,
}

/// The sweep's running state between tile groups.
pub struct SweepState {
    /// Per-pixel-row coverage carried from the previous tile of the row.
    pub prev: Seq<int>,
    /// Winding accumulated from the consumed winding deltas.
    pub winding: int,
    /// How many winding deltas are consumed.
    pub ti: int,
    /// The solid run being grown, if any.
    pub pending: Option<PendingRun>,
    /// The tile row and column of the last processed tile, if any.
    pub last: Option<(int, int)>,
}

/// The state a sweep starts from.
pub open spec fn init_sweep_state() -> SweepState {
    SweepState { prev: zeros(8), winding: 0, ti: 0, pending: None, last: None }
}

/// The events a pending run flushes.
pub open spec fn flush_events(pending: Option<PendingRun>) -> Seq<TileEvent> {
    match pending {
        Some(p) => seq![TileEvent::Solid { y: p.y, x0: p.x0, x1: p.x1 }],
        None => Seq::empty(),
    }
}

/// Whether a winding delta's tile does not come after `(ty, tx)` in
/// row-major order.
pub open spec fn tinc_le(t: TileIncrement, ty: int, tx: int) -> bool {
    t.tile_y < ty || (t.tile_y == ty && t.tile_x <= tx)
}

/// Consumes winding deltas at or before `(ty, tx)`, summing their signs.
pub open spec fn advance_winding(
    tincs: Seq<TileIncrement>,
    ti: int,
    w: int,
    ty: int,
    tx: int,
) -> (int, int)
    decreases tincs.len() - ti,
{
    if ti < 0 || ti >= tincs.len() {
        (ti, w)
    } else if tinc_le(tincs[ti], ty, tx) {
        advance_winding(tincs, ti + 1, w + tincs[ti].sign, ty, tx)
    } else {
        (ti, w)
    }
}

/// What happens before a tile is processed: flushing and carry reset on a
/// row change, and gap handling against the winding deltas within a row.
pub open spec fn pre_tile(
    st: SweepState,
    tincs: Seq<TileIncrement>,
    ty: int,
    tx: int,
) -> (Seq<TileEvent>, SweepState) {
    match st.last {
        None => (Seq::empty(), st),
        Some((lty, ltx)) => {
            if lty != ty {
                (
                    flush_events(st.pending),
                    SweepState {
                        prev: zeros(8),
                        winding: st.winding,
                        ti: st.ti,
                        pending: None,
                        last: st.last,
                    },
                )
            } else if ltx + 1 < tx {
                let (ti2, w2) = advance_winding(tincs, st.ti, st.winding, lty, ltx);
                if w2 != 0 {
                    match st.pending {
                        Some(p) => {
                            if p.y == ty && p.x1 == ltx + 1 {
                                (
                                    Seq::empty(),
                                    SweepState {
                                        prev: st.prev,
                                        winding: w2,
                                        ti: ti2,
                                        pending: Some(PendingRun { y: p.y, x0: p.x0, x1: tx }),
                                        last: st.last,
                                    },
                                )
                            } else {
                                (
                                    flush_events(st.pending),
                                    SweepState {
                                        prev: st.prev,
                                        winding: w2,
                                        ti: ti2,
                                        pending: Some(PendingRun { y: ty, x0: ltx + 1, x1: tx }),
                                        last: st.last,
                                    },
                                )
                            }
                        },
                        None => (
                            Seq::empty(),
                            SweepState {
                                prev: st.prev,
                                winding: w2,
                                ti: ti2,
                                pending: Some(PendingRun { y: ty, x0: ltx + 1, x1: tx }),
                                last: st.last,
                            },
                        ),
                    }
                } else {
                    (
                        flush_events(st.pending),
                        SweepState {
                            prev: st.prev,
                            winding: w2,
                            ti: ti2,
                            pending: None,
                            last: st.last,
                        },
                    )
                }
            } else {
                (Seq::empty(), st)
            }
        },
    }
}

/// Processes the tile group `incs[i .. j]` at tile `(ty, tx)`: pre-tile
/// adjustments, per-pixel accumulation, then classification into a dropped
/// empty tile, a grown solid run, or an emitted mask.
pub open spec fn process_group(
    incs: Seq<Increment>,
    tincs: Seq<TileIncrement>,
    st: SweepState,
    i: int,
    j: int,
    ty: int,
    tx: int,
) -> (Seq<TileEvent>, SweepState) {
    let (ev0, st0) = pre_tile(st, tincs, ty, tx);
    let areas = acc_areas(incs, i, j, zeros(64));
    let heights = acc_heights(incs, i, j, zeros(64));
    let bytes = tile_bytes(st0.prev, areas, heights);
    let nxt = next_carry(st0.prev, heights);
    if all_zero(bytes) {
        (
            ev0 + flush_events(st0.pending),
            SweepState {
                prev: nxt,
                winding: st0.winding,
                ti: st0.ti,
                pending: None,
                last: Some((ty, tx)),
            },
        )
    } else if all_full(bytes) {
        match st0.pending {
            Some(p) => {
                if p.y == ty && p.x1 == tx {
                    (
                        ev0,
                        SweepState {
                            prev: nxt,
                            winding: st0.winding,
                            ti: st0.ti,
                            pending: Some(PendingRun { y: p.y, x0: p.x0, x1: tx + 1 }),
                            last: Some((ty, tx)),
                        },
                    )
                } else {
                    (
                        ev0 + flush_events(st0.pending),
                        SweepState {
                            prev: nxt,
                            winding: st0.winding,
                            ti: st0.ti,
                            pending: Some(PendingRun { y: ty, x0: tx, x1: tx + 1 }),
                            last: Some((ty, tx)),
                        },
                    )
                }
            },
            None => (
                ev0,
                SweepState {
                    prev: nxt,
                    winding: st0.winding,
                    ti: st0.ti,
                    pending: Some(PendingRun { y: ty, x0: tx, x1: tx + 1 }),
                    last: Some((ty, tx)),
                },
            ),
        }
    } else {
        (
            ev0 + flush_events(st0.pending) + seq![TileEvent::Mask { y: ty, x: tx, bytes }],
            SweepState {
                prev: nxt,
                winding: st0.winding,
                ti: st0.ti,
                pending: None,
                last: Some((ty, tx)),
            },
        )
    }
}

/// The events of the sweep from group start `i` on, given the state so
/// far, ending with a final flush.
pub open spec fn sweep_from(
    incs: Seq<Increment>,
    tincs: Seq<TileIncrement>,
    st: SweepState,
    i: int,
) -> Seq<TileEvent>
    decreases incs.len() - i,
    when i >= 0
    via sweep_from_decreases
{
    if i >= incs.len() {
        flush_events(st.pending)
    } else {
        let j = group_end(incs, i);
        let ty = tile_of(incs[i].y as int);
        let tx = tile_of(incs[i].x as int);
        let r = process_group(incs, tincs, st, i, j, ty, tx);
        r.0 + sweep_from(incs, tincs, r.1, j)
    }
}

#[via_fn]
proof fn sweep_from_decreases(
    incs: Seq<Increment>,
    tincs: Seq<TileIncrement>,
    st: SweepState,
    i: int,
) {
    if 0 <= i < incs.len() {
        lemma_group_end_props(incs, i);
    }
}

/// Scans forward to the end of the tile group starting at `i`.
#[verifier::loop_isolation(false)]
fn find_group_end(incs: &Vec<Increment>, i: usize) -> (j: usize)
    requires
        i < incs@.len(),
        forall|m: int| 0 <= m < incs@.len() ==> valid_increment(#[trigger] incs@[m]),
    ensures
        j == group_end(incs@, i as int),
        i < j <= incs@.len(),
{
    proof {
        lemma_group_end_props(incs@, i as int);
    }
    let n = incs.len();
    let mut j: usize = i;
    while j + 1 < n && same_tile_exec(&incs[j], &incs[j + 1])
        invariant
            i <= j < n,
            group_end(incs@, j as int) == group_end(incs@, i as int),
            same_tile(incs@[i as int], incs@[j as int]),
        decreases n - j,
    {
        j = j + 1;
    }
    j + 1
}

/// Whether two increments fall in the same tile, in executable code.
fn same_tile_exec(a: &Increment, b: &Increment) -> (r: bool)
    requires
        valid_increment(*a),
        valid_increment(*b),
    ensures
        r == same_tile(*a, *b),
{
    let atx = crate::num::floor_div(a.x as i64, 8);
    let aty = crate::num::floor_div(a.y as i64, 8);
    let btx = crate::num::floor_div(b.x as i64, 8);
    let bty = crate::num::floor_div(b.y as i64, 8);
    atx == btx && aty == bty
}

/// The row-major pixel index of an increment within its tile.
fn local_index_exec(inc: &Increment) -> (r: usize)
    requires
        valid_increment(*inc),
    ensures
        r == local_index(*inc),
        r < 64,
{
    proof {
        vstd::arithmetic::div_mod::lemma_fundamental_div_mod(inc.x as int, 8);
        vstd::arithmetic::div_mod::lemma_mod_division_less_than_divisor(inc.x as int, 8);
        vstd::arithmetic::div_mod::lemma_fundamental_div_mod(inc.y as int, 8);
        vstd::arithmetic::div_mod::lemma_mod_division_less_than_divisor(inc.y as int, 8);
    }
    let lx = inc.x as i64 - 8 * crate::num::floor_div(inc.x as i64, 8);
    let ly = inc.y as i64 - 8 * crate::num::floor_div(inc.y as i64, 8);
    (ly * 8 + lx) as usize
}

/// Accumulates the areas and heights of the increments `i .. j` into one
/// tile's 64 pixel cells, saturating.
#[verifier::loop_isolation(false)]
fn accumulate_group(incs: &Vec<Increment>, i: usize, j: usize) -> (r: (Vec<i64>, Vec<i64>))
    requires
        i <= j <= incs@.len(),
        forall|m: int| 0 <= m < incs@.len() ==> valid_increment(#[trigger] incs@[m]),
    ensures
        ints_of(r.0@) == acc_areas(incs@, i as int, j as int, zeros(64)),
        ints_of(r.1@) == acc_heights(incs@, i as int, j as int, zeros(64)),
        r.0@.len() == 64,
        r.1@.len() == 64,
        forall|m: int| 0 <= m < 64 ==> -SAT_LIMIT <= #[trigger] r.0@[m] <= SAT_LIMIT,
        forall|m: int| 0 <= m < 64 ==> -SAT_LIMIT <= #[trigger] r.1@[m] <= SAT_LIMIT,
{
    let mut areas: Vec<i64> = vec![0i64; 64];
    let mut heights: Vec<i64> = vec![0i64; 64];
    proof {
        assert(ints_of(areas@) =~= zeros(64));
        assert(ints_of(heights@) =~= zeros(64));
    }
    let mut m: usize = i;
    while m < j
        invariant
            i <= m <= j,
            areas@.len() == 64,
            heights@.len() == 64,
            forall|k: int| 0 <= k < 64 ==> -SAT_LIMIT <= #[trigger] areas@[k] <= SAT_LIMIT,
            forall|k: int| 0 <= k < 64 ==> -SAT_LIMIT <= #[trigger] heights@[k] <= SAT_LIMIT,
            acc_areas(incs@, m as int, j as int, ints_of(areas@)) == acc_areas(
                incs@,
                i as int,
                j as int,
                zeros(64),
            ),
            acc_heights(incs@, m as int, j as int, ints_of(heights@)) == acc_heights(
                incs@,
                i as int,
                j as int,
                zeros(64),
            ),
        decreases j - m,
    {
        let inc = incs[m];
        let idx = local_index_exec(&inc);
        let ghost areas0 = ints_of(areas@);
        let ghost heights0 = ints_of(heights@);
        let av = areas[idx];
        areas.set(idx, sat_add(av, inc.area));
        let hv = heights[idx];
        heights.set(idx, sat_add(hv, inc.height));
        proof {
            assert(ints_of(areas@) =~= areas0.update(
                idx as int,
                spec_sat(areas0[idx as int] + incs@[m as int].area),
            ));
            assert(ints_of(heights@) =~= heights0.update(
                idx as int,
                spec_sat(heights0[idx as int] + incs@[m as int].height),
            ));
        }
        m = m + 1;
    }
    (areas, heights)
}

/// Computes one tile's coverage bytes and its carry to the right, and
/// whether the tile is entirely empty or entirely full.
#[verifier::loop_isolation(false)]
#[verifier::rlimit(60)]
fn tile_from_sums(prev: &Vec<i64>, areas: &Vec<i64>, heights: &Vec<i64>) -> (r: (
    TileMask,
    Vec<i64>,
    bool,
    bool,
))
    requires
        prev@.len() == 8,
        areas@.len() == 64,
        heights@.len() == 64,
        forall|m: int| 0 <= m < 8 ==> -SAT_LIMIT <= #[trigger] prev@[m] <= SAT_LIMIT,
        forall|m: int| 0 <= m < 64 ==> -SAT_LIMIT <= #[trigger] areas@[m] <= SAT_LIMIT,
        forall|m: int| 0 <= m < 64 ==> -SAT_LIMIT <= #[trigger] heights@[m] <= SAT_LIMIT,
    ensures
        r.0.bytes@ == tile_bytes(ints_of(prev@), ints_of(areas@), ints_of(heights@)),
        r.0.wf(),
        ints_of(r.1@) == next_carry(ints_of(prev@), ints_of(heights@)),
        r.1@.len() == 8,
        forall|m: int| 0 <= m < 8 ==> -SAT_LIMIT <= #[trigger] r.1@[m] <= SAT_LIMIT,
        r.2 == all_zero(r.0.bytes@),
        r.3 == all_full(r.0.bytes@),
{
    let ghost gprev = ints_of(prev@);
    let ghost gareas = ints_of(areas@);
    let ghost gheights = ints_of(heights@);
    let ghost spec_bytes = tile_bytes(gprev, gareas, gheights);
    let mut bytes: Vec<u8> = Vec::new();
    let mut nxt: Vec<i64> = Vec::new();
    let mut is_zero = true;
    let mut is_full = true;
    let mut y: usize = 0;
    while y < 8
        invariant
            0 <= y <= 8,
            bytes@.len() == 8 * y,
            nxt@.len() == y,
            forall|k: int| 0 <= k < 8 * y ==> #[trigger] bytes@[k] == spec_bytes[k],
            forall|k: int| 0 <= k < y ==> #[trigger] nxt@[k] as int == row_acc(
                gprev[k],
                gheights,
                k,
                8,
            ),
            forall|k: int| 0 <= k < y ==> -SAT_LIMIT <= #[trigger] nxt@[k] <= SAT_LIMIT,
            is_zero == (forall|k: int| 0 <= k < 8 * y ==> #[trigger] spec_bytes[k] == 0),
            is_full == (forall|k: int| 0 <= k < 8 * y ==> #[trigger] spec_bytes[k] == 255),
        decreases 8 - y,
    {
        let mut acc: i64 = prev[y];
        let mut x: usize = 0;
        while x < 8
            invariant
                0 <= x <= 8,
                0 <= y < 8,
                bytes@.len() == 8 * y + x,
                nxt@.len() == y,
                acc as int == row_acc(gprev[y as int], gheights, y as int, x as int),
                -SAT_LIMIT <= acc <= SAT_LIMIT,
                forall|k: int| 0 <= k < 8 * y + x ==> #[trigger] bytes@[k] == spec_bytes[k],
                forall|k: int| 0 <= k < y ==> #[trigger] nxt@[k] as int == row_acc(
                    gprev[k],
                    gheights,
                    k,
                    8,
                ),
                forall|k: int| 0 <= k < y ==> -SAT_LIMIT <= #[trigger] nxt@[k] <= SAT_LIMIT,
                is_zero == (forall|k: int| 0 <= k < 8 * y + x ==> #[trigger] spec_bytes[k] == 0),
                is_full == (forall|k: int| 0 <= k < 8 * y + x ==> #[trigger] spec_bytes[k] == 255),
            decreases 8 - x,
        {
            let idx = 8 * y + x;
            let cell = sat_add(acc, areas[idx]);
            let a: i64 = if cell < 0 {
                -cell
            } else {
                cell
            };
            let q: u64 = (a as u64) / 32;
            let byte: u8 = if q >= 255 {
                255u8
            } else {
                q as u8
            };
            proof {
                assert(idx as int / 8 == y as int && idx as int % 8 == x as int) by {
                    vstd::arithmetic::div_mod::lemma_fundamental_div_mod_converse_div(
                        idx as int,
                        8,
                        y as int,
                        x as int,
                    );
                    vstd::arithmetic::div_mod::lemma_fundamental_div_mod_converse_mod(
                        idx as int,
                        8,
                        y as int,
                        x as int,
                    );
                }
                assert(byte == cov_byte(
                    spec_sat(row_acc(gprev[y as int], gheights, y as int, x as int)
                        + gareas[idx as int]),
                ));
                assert(byte == spec_bytes[idx as int]);
            }
            bytes.push(byte);
            if byte != 0 {
                is_zero = false;
            }
            if byte != 255 {
                is_full = false;
            }
            acc = sat_add(acc, heights[idx]);
            x = x + 1;
        }
        nxt.push(acc);
        y = y + 1;
    }
    proof {
        assert(bytes@ =~= spec_bytes);
        assert(ints_of(nxt@) =~= next_carry(gprev, gheights));
    }
    (TileMask { bytes }, nxt, is_zero, is_full)
}

/// A solid run being grown, in executable form.
#[derive(Debug, Clone, Copy, PartialEq, Eq, Structural)]
pub struct RunAcc {
    pub y: i64,
    pub x0: i64,
    pub x1: i64,
}

/// Run coordinates small enough to hand to an encoder as `i16`.
pub open spec fn run_ok(p: RunAcc) -> bool {
    &&& -0x1001 <= p.y <= 0x1001
    &&& -0x1001 <= p.x0 <= 0x1002
    &&& -0x1001 <= p.x1 <= 0x1002
    &&& p.x0 < p.x1
}

/// The pending run a possibly-absent executable run models.
pub open spec fn run_model(p: Option<RunAcc>) -> Option<PendingRun> {
    match p {
        Some(r) => Some(PendingRun { y: r.y as int, x0: r.x0 as int, x1: r.x1 as int }),
        None => None,
    }
}

/// Hands the pending run, if any, to the encoder and clears it.
fn flush_pending<E: Encoder>(encoder: &mut E, pending: &mut Option<RunAcc>)
    requires
        match *old(pending) {
            Some(p) => run_ok(p),
            None => true,
        },
    ensures
        final(encoder).events() == old(encoder).events() + flush_events(
            run_model(*old(pending)),
        ),
        *final(pending) == None::<RunAcc>,
{
    let ghost before = encoder.events();
    match *pending {
        Some(p) => {
            encoder.solid(p.y as i16, (p.x0 as i16)..(p.x1 as i16));
            *pending = None;
            proof {
                assert(encoder.events() =~= before + flush_events(run_model(Some(p))));
            }
        },
        None => {
            proof {
                assert(encoder.events() =~= before + flush_events(run_model(None::<RunAcc>)));
            }
        },
    }
}

/// Whether a winding delta's tile is at or before `(ty, tx)`, in
/// executable code.
fn tinc_le_exec(t: &TileIncrement, ty: i64, tx: i64) -> (r: bool)
    ensures
        r == tinc_le(*t, ty as int, tx as int),
{
    (t.tile_y as i64) < ty || ((t.tile_y as i64) == ty && (t.tile_x as i64) <= tx)
}

/// The events `end` hands the encoder for a rasterizer's recorded state:
/// the implicit closing segment is added, increments and winding deltas
/// are sorted row-major, and the sweep runs from a fresh state.
pub open spec fn end_events(r: crate::raster::Rasterizer) -> Seq<TileEvent> {
    let incs1 = r.increments@ + crate::raster::seg_incs(r.cur.sp(), r.start.sp());
    let tincs1 = r.tile_increments@ + crate::raster::seg_tincs(r.cur.sp(), r.start.sp());
    sweep_from(
        crate::sort::sort_incs(incs1),
        crate::sort::sort_tincs(tincs1),
        init_sweep_state(),
        0,
    )
}

impl crate::raster::Rasterizer {
    /// Closes the path, sorts what was recorded row-major by tile, and
    /// sweeps it into solid runs and mask tiles handed to the encoder in
    /// order; the events are a function of the recorded state alone.
    #[verifier::loop_isolation(false)]
    #[verifier::rlimit(100)]
    pub fn end<E: Encoder>(&mut self, encoder: &mut E)
        requires
            old(self).wf(),
        ensures
            final(self).wf(),
            final(self).start == old(self).start,
            final(self).cur == old(self).start,
            final(encoder).events() == old(encoder).events() + end_events(*old(self)),
    {
        self.close();
        crate::sort::sort_increments(&mut self.increments);
        crate::sort::sort_tile_increments(&mut self.tile_increments);
        let ghost sincs = self.increments@;
        let ghost stincs = self.tile_increments@;
        proof {
            assert(end_events(*old(self)) == sweep_from(sincs, stincs, init_sweep_state(), 0));
        }
        let n = self.increments.len();
        let tn = self.tile_increments.len();
        let mut prev: Vec<i64> = vec![0i64; 8];
        let mut winding: i128 = 0;
        let mut ti: usize = 0;
        let mut pending: Option<RunAcc> = None;
        let mut has_last = false;
        let mut last_ty: i64 = 0;
        let mut last_tx: i64 = 0;
        let ghost mut st = init_sweep_state();
        proof {
            assert(ints_of(prev@) =~= zeros(8));
        }
        let mut i: usize = 0;
        while i < n
            invariant
                0 <= i <= n,
                n == sincs.len(),
                tn == stincs.len(),
                self.increments@ == sincs,
                self.tile_increments@ == stincs,
                forall|m: int| 0 <= m < n ==> valid_increment(#[trigger] sincs[m]),
                forall|m: int| 0 <= m < tn ==> valid_tile_increment(#[trigger] stincs[m]),
                prev@.len() == 8,
                ints_of(prev@) == st.prev,
                forall|m: int| 0 <= m < 8 ==> -SAT_LIMIT <= #[trigger] prev@[m] <= SAT_LIMIT,
                winding as int == st.winding,
                -(ti as int) <= winding as int <= ti as int,
                ti == st.ti,
                ti <= tn,
                run_model(pending) == st.pending,
                match pending {
                    Some(p) => run_ok(p),
                    None => true,
                },
                match st.last {
                    Some(t) => has_last && t == (last_ty as int, last_tx as int) && -0x1001
                        <= last_ty <= 0x1001 && -0x1001 <= last_tx <= 0x1001,
                    None => !has_last,
                },
                encoder.events() + sweep_from(sincs, stincs, st, i as int) == old(
                    encoder,
                ).events() + sweep_from(sincs, stincs, init_sweep_state(), 0),
            decreases n - i,
        {
            proof {
                lemma_group_end_props(sincs, i as int);
            }
            let j = find_group_end(&self.increments, i);
            let inc0 = self.increments[i];
            let cty = crate::num::floor_div(inc0.y as i64, 8);
            let ctx = crate::num::floor_div(inc0.x as i64, 8);
            let ghost ty = tile_of(sincs[i as int].y as int);
            let ghost tx = tile_of(sincs[i as int].x as int);
            proof {
                assert(cty as int == ty && ctx as int == tx);
                assert(-0x1001 <= cty <= 0x1001 && -0x1001 <= ctx <= 0x1001);
            }
            let ghost it_events = encoder.events();
            let ghost st_in = st;
            let ghost pre = pre_tile(st, stincs, ty, tx);
            // Pre-tile handling: row change or gap within the row.
            if has_last {
                if last_ty != cty {
                    flush_pending(encoder, &mut pending);
                    prev = vec![0i64; 8];
                    proof {
                        assert(ints_of(prev@) =~= zeros(8));
                    }
                } else if last_tx + 1 < ctx {
                    let ghost adv = advance_winding(
                        stincs,
                        st.ti,
                        st.winding,
                        last_ty as int,
                        last_tx as int,
                    );
                    while ti < tn && tinc_le_exec(&self.tile_increments[ti], last_ty, last_tx)
                        invariant
                            st.ti <= ti <= tn,
                            -(ti as int) <= winding as int <= ti as int,
                            advance_winding(
                                stincs,
                                ti as int,
                                winding as int,
                                last_ty as int,
                                last_tx as int,
                            ) == adv,
                        decreases tn - ti,
                    {
                        winding = winding + (self.tile_increments[ti].sign as i128);
                        ti = ti + 1;
                    }
                    proof {
                        assert((ti as int, winding as int) == adv);
                        st = SweepState {
                            prev: st.prev,
                            winding: winding as int,
                            ti: ti as int,
                            pending: st.pending,
                            last: st.last,
                        };
                    }
                    if winding != 0 {
                        let extend = match pending {
                            Some(p) => p.y == cty && p.x1 == last_tx + 1,
                            None => false,
                        };
                        if extend {
                            let p = pending.unwrap();
                            pending = Some(RunAcc { y: p.y, x0: p.x0, x1: ctx });
                        } else {
                            flush_pending(encoder, &mut pending);
                            pending = Some(RunAcc { y: cty, x0: last_tx + 1, x1: ctx });
                        }
                    } else {
                        flush_pending(encoder, &mut pending);
                    }
                }
            }
            proof {
                st = pre.1;
                assert(ints_of(prev@) == st.prev);
                assert(run_model(pending) == st.pending);
                assert(encoder.events() =~= it_events + pre.0);
            }
            // The tile itself.
            let (areas, heights) = accumulate_group(&self.increments, i, j);
            let (tile, nxt, is_zero, is_full) = tile_from_sums(&prev, &areas, &heights);
            prev = nxt;
            let ghost pg = process_group(sincs, stincs, st_in, i as int, j as int, ty, tx);
            if is_zero {
                flush_pending(encoder, &mut pending);
            } else if is_full {
                let extend = match pending {
                    Some(p) => p.y == cty && p.x1 == ctx,
                    None => false,
                };
                if extend {
                    let p = pending.unwrap();
                    pending = Some(RunAcc { y: p.y, x0: p.x0, x1: ctx + 1 });
                } else {
                    flush_pending(encoder, &mut pending);
                    pending = Some(RunAcc { y: cty, x0: ctx, x1: ctx + 1 });
                }
            } else {
                flush_pending(encoder, &mut pending);
                encoder.mask(cty as i16, ctx as i16, tile);
            }
            has_last = true;
            last_ty = cty;
            last_tx = ctx;
            proof {
                st = pg.1;
                assert(ints_of(prev@) == st.prev);
                assert(run_model(pending) == st.pending);
                assert(encoder.events() =~= it_events + pg.0);
                assert(sweep_from(sincs, stincs, st_in, i as int) == pg.0 + sweep_from(
                    sincs,
                    stincs,
                    pg.1,
                    j as int,
                ));
                assert(encoder.events() + sweep_from(sincs, stincs, st, j as int) =~= it_events
                    + sweep_from(sincs, stincs, st_in, i as int));
            }
            i = j;
        }
        flush_pending(encoder, &mut pending);
        proof {
            assert(sweep_from(sincs, stincs, st, n as int) == flush_events(st.pending));
        }
    }
}

} // verus!
