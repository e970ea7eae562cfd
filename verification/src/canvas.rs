//! The canvas core: paths are rasterized into tile descriptors, mask
//! tiles get atlas slots and pend for one batched upload, results are
//! memoized by shape identity, and cached tiles are composed into vertex
//! quads.

use vstd::prelude::*;
use crate::atlas::{Atlas, AtlasTile, PAGE_TILES, PAGE_WIDTH};
use crate::cache::{
    GlyphCache, GlyphEntry, SquircleCache, SquircleKey, glyph_find, lemma_glyph_find,
    lemma_squircle_find, squircle_find,
};
use crate::layout::{Margin, Rect, rect_in_range};
use crate::raster::{PointFx, Rasterizer, SpecPoint, seg_incs, seg_tincs, valid_point};
use crate::scene::{Color, Scene, SOLID_PAGE, Vertex, pack_uv, quad};
use crate::sweep::{Encoder, TileEvent, TileMask, sweep_from, init_sweep_state};
use crate::typo::{FontScaled, FontSize, GlyphKey, Pen, TextRun};

verus! {

/// One straight-line path command in 26.6 device coordinates; curves are
/// flattened to lines before they reach the rasterizer.
#[derive(Debug, Clone, Copy, PartialEq, Eq, Structural)]
pub enum PathCmd {
    MoveTo(PointFx),
    LineTo(PointFx),
    Close,
}

/// Every coordinate of the command list in range.
pub open spec fn valid_cmds(cmds: Seq<PathCmd>) -> bool {
    forall|i: int|
        0 <= i < cmds.len() ==> match #[trigger] cmds[i] {
            PathCmd::MoveTo(p) => valid_point(p),
            PathCmd::LineTo(p) => valid_point(p),
            PathCmd::Close => true,
        }
}

/// The rasterizer's recorded state, as a mathematical value.
pub struct RasterModel {
    pub start: SpecPoint,
    pub cur: SpecPoint,
    pub incs: Seq<crate::raster::Increment>,
    pub tincs: Seq<crate::raster::TileIncrement>,
}

/// The state of a freshly begun rasterizer at the origin.
pub open spec fn init_model() -> RasterModel {
    RasterModel {
        start: SpecPoint { x: 0, y: 0 },
        cur: SpecPoint { x: 0, y: 0 },
        incs: Seq::empty(),
        tincs: Seq::empty(),
    }
}

/// The recorded state of a concrete rasterizer.
pub open spec fn model_of(r: Rasterizer) -> RasterModel {
    RasterModel {
        start: r.start.sp(),
        cur: r.cur.sp(),
        incs: r.increments@,
        tincs: r.tile_increments@,
    }
}

/// What one path command does to the recorded state.
pub open spec fn step_model(m: RasterModel, cmd: PathCmd) -> RasterModel {
    match cmd {
        PathCmd::MoveTo(p) => RasterModel {
            start: p.sp(),
            cur: p.sp(),
            incs: m.incs,
            tincs: m.tincs,
        },
        PathCmd::LineTo(p) => RasterModel {
            start: m.start,
            cur: p.sp(),
            incs: m.incs + seg_incs(m.cur, p.sp()),
            tincs: m.tincs + seg_tincs(m.cur, p.sp()),
        },
        PathCmd::Close => RasterModel {
            start: m.start,
            cur: m.start,
            incs: m.incs + seg_incs(m.cur, m.start),
            tincs: m.tincs + seg_tincs(m.cur, m.start),
        },
    }
}

/// The recorded state after replaying the commands from `m`.
pub open spec fn replay(cmds: Seq<PathCmd>, m: RasterModel) -> RasterModel
    decreases cmds.len(),
{
    if cmds.len() == 0 {
        m
    } else {
        replay(cmds.drop_first(), step_model(m, cmds[0]))
    }
}

/// Replaying one more command steps the replayed state.
pub proof fn lemma_replay_snoc(cmds: Seq<PathCmd>, m: RasterModel, cmd: PathCmd)
    ensures
        replay(cmds.push(cmd), m) == step_model(replay(cmds, m), cmd),
    decreases cmds.len(),
{
    assert(cmds.push(cmd)[0] == if cmds.len() == 0 {
        cmd
    } else {
        cmds[0]
    });
    if cmds.len() == 0 {
        assert(cmds.push(cmd).drop_first() =~= Seq::<PathCmd>::empty());
        assert(replay(Seq::<PathCmd>::empty(), step_model(m, cmd)) == step_model(m, cmd));
        assert(replay(cmds.push(cmd), m) == replay(
            Seq::<PathCmd>::empty(),
            step_model(m, cmds.push(cmd)[0]),
        ));
    } else {
        assert(cmds.push(cmd).drop_first() =~= cmds.drop_first().push(cmd));
        lemma_replay_snoc(cmds.drop_first(), step_model(m, cmds[0]), cmd);
    }
}

/// The events the sweep yields for a recorded state: the implicit closing
/// segment, the row-major sorts, then the sweep from a fresh state.
pub open spec fn model_events(m: RasterModel) -> Seq<TileEvent> {
    let incs1 = m.incs + seg_incs(m.cur, m.start);
    let tincs1 = m.tincs + seg_tincs(m.cur, m.start);
    sweep_from(
        crate::sort::sort_incs(incs1),
        crate::sort::sort_tincs(tincs1),
        init_sweep_state(),
        0,
    )
}

/// The events a command list rasterizes to, from a fresh rasterizer.
pub open spec fn path_events(cmds: Seq<PathCmd>) -> Seq<TileEvent> {
    model_events(replay(cmds, init_model()))
}

/// A horizontal run of fully covered tiles needing no mask.
#[derive(Debug, Clone, Copy, PartialEq, Eq, Structural)]
pub struct RasterTileSolid {
    pub tx: i32,
    pub ty: i32,
    pub width: i32,
}

/// One partially covered tile, with its coverage bytes homed at
/// `atlas_tile` in the atlas.
#[derive(Debug, Clone, Copy, PartialEq, Eq, Structural)]
pub struct RasterTileMask {
    pub tx: i32,
    pub ty: i32,
    pub atlas_tile: AtlasTile,
}

/// The immutable result of rasterizing one path: its solid runs and its
/// mask tiles, in sweep order.
#[derive(Debug)]
pub struct RasterTiles {
    pub solid: Vec<RasterTileSolid>,
    pub mask: Vec<RasterTileMask>,
}

/// Tile coordinates small enough for composition arithmetic.
pub open spec fn tiles_wf(t: RasterTiles) -> bool {
    &&& forall|i: int|
        0 <= i < t.solid@.len() ==> {
            &&& -0x8000 <= (#[trigger] t.solid@[i]).tx <= 0x8000
            &&& -0x8000 <= t.solid@[i].ty <= 0x8000
            &&& -0x1_0000 <= t.solid@[i].width <= 0x1_0000
        }
    &&& forall|i: int|
        0 <= i < t.mask@.len() ==> {
            &&& -0x8000 <= (#[trigger] t.mask@[i]).tx <= 0x8000
            &&& -0x8000 <= t.mask@[i].ty <= 0x8000
        }
}

/// Every mask tile's atlas page exists in the given page list.
pub open spec fn tiles_in_atlas(t: RasterTiles, pages: Seq<crate::atlas::AtlasPage>) -> bool {
    forall|i: int|
        0 <= i < t.mask@.len() ==> (#[trigger] t.mask@[i]).atlas_tile.page < pages.len()
}

/// The solid runs among a sweep's events, in order.
pub open spec fn solids_of(evs: Seq<TileEvent>) -> Seq<RasterTileSolid>
    decreases evs.len(),
{
    if evs.len() == 0 {
        Seq::empty()
    } else {
        solids_of(evs.drop_last()) + match evs.last() {
            TileEvent::Solid { y, x0, x1 } => seq![
                RasterTileSolid { tx: x0 as i32, ty: y as i32, width: (x1 - x0) as i32 },
            ],
            TileEvent::Mask { .. } => Seq::empty(),
        }
    }
}

/// The mask tiles among a sweep's events, in order: tile row, tile
/// column, and the 64 coverage bytes.
pub open spec fn masks_of(evs: Seq<TileEvent>) -> Seq<(i32, i32, Seq<u8>)>
    decreases evs.len(),
{
    if evs.len() == 0 {
        Seq::empty()
    } else {
        masks_of(evs.drop_last()) + match evs.last() {
            TileEvent::Solid { .. } => Seq::empty(),
            TileEvent::Mask { y, x, bytes } => seq![(x as i32, y as i32, bytes)],
        }
    }
}

/// One received sweep event, stored as plain data.
pub enum TileEventRec {
    Solid { y: i16, x0: i16, x1: i16 },
    Mask { y: i16, x: i16, mask: TileMask },
}

/// The event a stored record stands for.
pub open spec fn event_of(r: TileEventRec) -> TileEvent {
    match r {
        TileEventRec::Solid { y, x0, x1 } => TileEvent::Solid {
            y: y as int,
            x0: x0 as int,
            x1: x1 as int,
        },
        TileEventRec::Mask { y, x, mask } => TileEvent::Mask {
            y: y as int,
            x: x as int,
            bytes: mask.bytes@,
        },
    }
}

/// The events a record list stands for, in order.
pub open spec fn events_of(s: Seq<TileEventRec>) -> Seq<TileEvent> {
    Seq::new(s.len(), |i: int| event_of(s[i]))
}

/// Collects a sweep's events as plain records; the atlas is consulted
/// afterwards, one slot per mask event, in order.
pub struct TileCollector {
    pub recs: Vec<TileEventRec>,
}

impl TileCollector {
    /// An empty collector.
    pub fn new() -> (r: Self)
        ensures
            r.events() == Seq::<TileEvent>::empty(),
    {
        let r = TileCollector { recs: Vec::new() };
        proof {
            assert(events_of(r.recs@) =~= Seq::<TileEvent>::empty());
        }
        r
    }
}

impl Encoder for TileCollector {
    open spec fn events(&self) -> Seq<TileEvent> {
        events_of(self.recs@)
    }

    fn solid(&mut self, y: i16, x: core::ops::Range<i16>) {
        let ghost ev = TileEvent::Solid { y: y as int, x0: x.start as int, x1: x.end as int };
        self.recs.push(TileEventRec::Solid { y, x0: x.start, x1: x.end });
        proof {
            assert(events_of(self.recs@) =~= events_of(old(self).recs@).push(ev));
        }
    }

    fn mask(&mut self, y: i16, x: i16, mask: TileMask) {
        let ghost ev = TileEvent::Mask { y: y as int, x: x as int, bytes: mask.bytes@ };
        self.recs.push(TileEventRec::Mask { y, x, mask });
        proof {
            assert(events_of(self.recs@) =~= events_of(old(self).recs@).push(ev));
        }
    }
}

/// The atlas slot that allocation number `n` receives, counting from an
/// empty atlas.
pub open spec fn spec_alloc_tile(n: int) -> AtlasTile {
    AtlasTile {
        page: (n / PAGE_TILES as int) as u16,
        tx: ((n % PAGE_TILES as int) % PAGE_WIDTH as int) as u8,
        ty: ((n % PAGE_TILES as int) / PAGE_WIDTH as int) as u8,
    }
}

/// Taking one more event extends the projections by that event's
/// contribution.
proof fn lemma_prefix_step(evs: Seq<TileEvent>, k: int)
    requires
        0 <= k < evs.len(),
    ensures
        evs.subrange(0, k + 1).drop_last() == evs.subrange(0, k),
        evs.subrange(0, k + 1).last() == evs[k],
    decreases evs.len(),
{
    assert(evs.subrange(0, k + 1).drop_last() =~= evs.subrange(0, k));
}

/// Longer event prefixes never project to fewer masks.
proof fn lemma_masks_mono(evs: Seq<TileEvent>, a: int, b: int)
    requires
        0 <= a <= b <= evs.len(),
    ensures
        masks_of(evs.subrange(0, a)).len() <= masks_of(evs.subrange(0, b)).len(),
    decreases b - a,
{
    if a < b {
        lemma_prefix_step(evs, b - 1);
        lemma_masks_mono(evs, a, b - 1);
    }
}

/// Every mask event a sweep emits carries exactly 64 coverage bytes.
proof fn lemma_sweep_masks_wf(
    incs: Seq<crate::raster::Increment>,
    tincs: Seq<crate::raster::TileIncrement>,
    st: crate::sweep::SweepState,
    i: int,
)
    requires
        i >= 0,
    ensures
        forall|k: int|
            0 <= k < sweep_from(incs, tincs, st, i).len() ==> match #[trigger] sweep_from(
                incs,
                tincs,
                st,
                i,
            )[k] {
                TileEvent::Mask { bytes, .. } => bytes.len() == 64,
                TileEvent::Solid { .. } => true,
            },
    decreases incs.len() - i,
{
    if i < incs.len() {
        let j = crate::sweep::group_end(incs, i);
        let ty = crate::raster::tile_of(incs[i].y as int);
        let tx = crate::raster::tile_of(incs[i].x as int);
        let r = crate::sweep::process_group(incs, tincs, st, i, j, ty, tx);
        crate::sweep::lemma_group_end_props(incs, i);
        lemma_sweep_masks_wf(incs, tincs, r.1, j);
    }
}


/// Turns collected sweep events into raster tiles: solid runs pass
/// through; each mask receives the next atlas slot and its bytes pend in
/// the scene.
#[verifier::loop_isolation(false)]
#[verifier::rlimit(100)]
fn assemble_tiles(
    atlas: &mut Atlas,
    scene: &mut Scene,
    mut coll: TileCollector,
    Ghost(evs): Ghost<Seq<TileEvent>>,
) -> (r: RasterTiles)
    requires
        old(atlas).wf(),
        old(scene).wf(),
        events_of(coll.recs@) == evs,
        old(atlas).total_allocated() + masks_of(evs).len() < 0x8000 * (PAGE_TILES as int),
        forall|m: int|
            0 <= m < evs.len() ==> match #[trigger] evs[m] {
                TileEvent::Mask { bytes, .. } => bytes.len() == 64,
                TileEvent::Solid { .. } => true,
            },
    ensures
        final(atlas).wf(),
        final(scene).wf(),
        tiles_wf(r),
        tiles_in_atlas(r, final(atlas).pages@),
        final(atlas).pages@.len() >= old(atlas).pages@.len(),
        r.solid@ == solids_of(evs),
        r.mask@.len() == masks_of(evs).len(),
        forall|i: int|
            0 <= i < r.mask@.len() ==> {
                let ms = masks_of(evs);
                &&& (#[trigger] r.mask@[i]).tx == ms[i].0
                &&& r.mask@[i].ty == ms[i].1
                &&& r.mask@[i].atlas_tile == spec_alloc_tile(old(atlas).total_allocated() + i)
            },
        final(atlas).total_allocated() == old(atlas).total_allocated() + masks_of(evs).len(),
        final(scene).vertices@ == old(scene).vertices@,
        final(scene).atlas_tiles@.len() == old(scene).atlas_tiles@.len() + r.mask@.len(),
        final(scene).atlas_tiles@.subrange(0, old(scene).atlas_tiles@.len() as int) == old(
            scene,
        ).atlas_tiles@,
        final(scene).atlas_data@.subrange(0, old(scene).atlas_data@.len() as int) == old(
            scene,
        ).atlas_data@,
        forall|i: int|
            0 <= i < r.mask@.len() ==> {
                let base = old(scene).atlas_tiles@.len() as int;
                &&& final(scene).atlas_tiles@[base + i] == (#[trigger] r.mask@[i]).atlas_tile
                &&& final(scene).atlas_data@[base + i].bytes@ == masks_of(evs)[i].2
            },
{
    let ghost total0 = old(atlas).total_allocated();
        let mut solid: Vec<RasterTileSolid> = Vec::new();
        let mut mask: Vec<RasterTileMask> = Vec::new();
        let nr = coll.recs.len();
        proof {
            assert(evs.subrange(0, 0) =~= Seq::<TileEvent>::empty());
            assert(solids_of(evs.subrange(0, 0)) =~= Seq::<RasterTileSolid>::empty());
            assert(masks_of(evs.subrange(0, 0)) =~= Seq::<(i32, i32, Seq<u8>)>::empty());
        }
        let mut k: usize = 0;
        while k < nr
            invariant
                0 <= k <= nr,
                nr == evs.len(),
                coll.recs@.len() == nr - k,
                forall|m: int|
                    0 <= m < nr - k ==> event_of(#[trigger] coll.recs@[m]) == evs[m + k],
                solid@ == solids_of(evs.subrange(0, k as int)),
                mask@.len() == masks_of(evs.subrange(0, k as int)).len(),
                forall|m: int|
                    0 <= m < solid@.len() ==> {
                        &&& -0x8000 <= (#[trigger] solid@[m]).tx <= 0x8000
                        &&& -0x8000 <= solid@[m].ty <= 0x8000
                        &&& -0x1_0000 <= solid@[m].width <= 0x1_0000
                    },
                forall|m: int|
                    0 <= m < mask@.len() ==> {
                        &&& -0x8000 <= (#[trigger] mask@[m]).tx <= 0x8000
                        &&& -0x8000 <= mask@[m].ty <= 0x8000
                        &&& mask@[m].atlas_tile.page < atlas.pages@.len()
                    },
                atlas.pages@.len() >= old(atlas).pages@.len(),
                atlas.wf(),
                atlas.total_allocated() == total0 + mask@.len(),
                total0 + masks_of(evs).len() < 0x8000 * (PAGE_TILES as int),
                forall|m: int|
                    0 <= m < mask@.len() ==> {
                        &&& (#[trigger] mask@[m]).tx == masks_of(evs.subrange(0, k as int))[m].0
                        &&& mask@[m].ty == masks_of(evs.subrange(0, k as int))[m].1
                        &&& mask@[m].atlas_tile == spec_alloc_tile(total0 + m)
                        &&& scene.atlas_tiles@[old(scene).atlas_tiles@.len() as int + m]
                            == mask@[m].atlas_tile
                        &&& scene.atlas_data@[old(scene).atlas_tiles@.len() as int + m].bytes@
                            == masks_of(evs.subrange(0, k as int))[m].2
                    },
                scene.wf(),
                scene.vertices@ == old(scene).vertices@,
                scene.atlas_tiles@.len() == old(scene).atlas_tiles@.len() + mask@.len(),
                scene.atlas_tiles@.subrange(0, old(scene).atlas_tiles@.len() as int)
                    == old(scene).atlas_tiles@,
                scene.atlas_data@.subrange(0, old(scene).atlas_data@.len() as int) == old(
                    scene,
                ).atlas_data@,

                forall|m: int|
                    0 <= m < evs.len() ==> match #[trigger] evs[m] {
                        TileEvent::Mask { bytes, .. } => bytes.len() == 64,
                        TileEvent::Solid { .. } => true,
                    },
            decreases nr - k,
        {
            proof {
                lemma_prefix_step(evs, k as int);
                lemma_masks_mono(evs, k as int + 1, nr as int);
                assert(evs.subrange(0, nr as int) =~= evs);
            }
            let ghost old_recs = coll.recs@;
            let rec = coll.recs.remove(0);
            proof {
                assert(event_of(rec) == evs[k as int]);
                assert(forall|m: int|
                    0 <= m < nr - k - 1 ==> #[trigger] coll.recs@[m] == old_recs[m + 1]);
            }
            match rec {
                TileEventRec::Solid { y, x0, x1 } => {
                    solid.push(
                        RasterTileSolid {
                            tx: x0 as i32,
                            ty: y as i32,
                            width: (x1 as i32) - (x0 as i32),
                        },
                    );
                    proof {
                        assert(solid@ =~= solids_of(evs.subrange(0, k as int + 1)));
                        assert(masks_of(evs.subrange(0, k as int + 1)) =~= masks_of(
                            evs.subrange(0, k as int),
                        ));
                        let ms1 = masks_of(evs.subrange(0, k as int + 1));
                        let ms0 = masks_of(evs.subrange(0, k as int));
                        let base = old(scene).atlas_tiles@.len() as int;
                        assert forall|m: int| 0 <= m < mask@.len() implies {
                            &&& (#[trigger] mask@[m]).tx == ms1[m].0
                            &&& mask@[m].ty == ms1[m].1
                            &&& mask@[m].atlas_tile == spec_alloc_tile(total0 + m)
                            &&& scene.atlas_tiles@[base + m] == mask@[m].atlas_tile
                            &&& scene.atlas_data@[base + m].bytes@ == ms1[m].2
                        } by {
                            assert(ms1[m] == ms0[m]);
                        }
                    }
                },
                TileEventRec::Mask { y, x, mask: tile } => {
                    proof {
                        crate::atlas::lemma_page_arith(*atlas);
                    }
                    let ghost mask_before = mask@;
                    let ghost tiles_before = scene.atlas_tiles@;
                    let ghost data_before = scene.atlas_data@;
                    let at = atlas.allocate(0);
                    mask.push(RasterTileMask { tx: x as i32, ty: y as i32, atlas_tile: at });
                    scene.atlas_tiles.push(at);
                    scene.atlas_data.push(tile);
                    proof {
                        assert(solids_of(evs.subrange(0, k as int + 1)) =~= solids_of(
                            evs.subrange(0, k as int),
                        ));
                        assert(masks_of(evs.subrange(0, k as int + 1)) =~= masks_of(
                            evs.subrange(0, k as int),
                        ).push((x as i32, y as i32, tile.bytes@)));
                        assert(scene.atlas_tiles@.subrange(
                            0,
                            old(scene).atlas_tiles@.len() as int,
                        ) =~= old(scene).atlas_tiles@);
                        assert(scene.atlas_data@.subrange(
                            0,
                            old(scene).atlas_data@.len() as int,
                        ) =~= old(scene).atlas_data@);
                        let ms1 = masks_of(evs.subrange(0, k as int + 1));
                        let base = old(scene).atlas_tiles@.len() as int;
                        assert forall|m: int| 0 <= m < mask@.len() implies {
                            &&& (#[trigger] mask@[m]).tx == ms1[m].0
                            &&& mask@[m].ty == ms1[m].1
                            &&& mask@[m].atlas_tile == spec_alloc_tile(total0 + m)
                            &&& scene.atlas_tiles@[base + m] == mask@[m].atlas_tile
                            &&& scene.atlas_data@[base + m].bytes@ == ms1[m].2
                        } by {
                            let ms0 = masks_of(evs.subrange(0, k as int));
                            if m < mask@.len() - 1 {
                                assert(ms1[m] == ms0[m]);
                                assert(mask@[m] == mask_before[m]);
                                assert(scene.atlas_tiles@[base + m] == tiles_before[base + m]);
                                assert(scene.atlas_data@[base + m] == data_before[base + m]);
                            } else {
                                assert(ms1[m] == (x as i32, y as i32, tile.bytes@));
                                assert(mask@[m] == (RasterTileMask {
                                    tx: x as i32,
                                    ty: y as i32,
                                    atlas_tile: at,
                                }));
                                assert(scene.atlas_tiles@[base + m] == at);
                                assert(scene.atlas_data@[base + m] == tile);
                            }
                        }
                    }
                },
            }
            k += 1;
        }
        proof {
            assert(evs.subrange(0, nr as int) =~= evs);
        }
        RasterTiles { solid, mask }
}

/// The quad of one solid run placed at anchor `(x, y)`, mirrored per axis
/// when flipped.
pub open spec fn flip_solid_quad(
    s: RasterTileSolid,
    x: int,
    y: int,
    color: Color,
    fx: bool,
    fy: bool,
) -> Seq<Vertex> {
    let x0 = crate::scene::flip_coord(x, s.tx * 8, fx);
    let x1 = crate::scene::flip_coord(x, (s.tx + s.width) * 8, fx);
    let y0 = crate::scene::flip_coord(y, s.ty * 8, fy);
    let y1 = crate::scene::flip_coord(y, (s.ty + 1) * 8, fy);
    quad(
        Vertex { x: x0 as i32, y: y0 as i32, page: SOLID_PAGE, tile: 0, color },
        Vertex { x: x0 as i32, y: y1 as i32, page: SOLID_PAGE, tile: 0, color },
        Vertex { x: x1 as i32, y: y1 as i32, page: SOLID_PAGE, tile: 0, color },
        Vertex { x: x1 as i32, y: y0 as i32, page: SOLID_PAGE, tile: 0, color },
    )
}

/// The atlas-sampled quad of one mask tile placed at anchor `(x, y)`,
/// mirrored per axis when flipped; the texture corners pack the tile's
/// pixel position in its page.
pub open spec fn flip_mask_quad(
    m: RasterTileMask,
    pages: Seq<crate::atlas::AtlasPage>,
    x: int,
    y: int,
    color: Color,
    fx: bool,
    fy: bool,
) -> Seq<Vertex> {
    let x0 = crate::scene::flip_coord(x, m.tx * 8, fx);
    let x1 = crate::scene::flip_coord(x, (m.tx + 1) * 8, fx);
    let y0 = crate::scene::flip_coord(y, m.ty * 8, fy);
    let y1 = crate::scene::flip_coord(y, (m.ty + 1) * 8, fy);
    let page = pages[m.atlas_tile.page as int].address;
    let atx = m.atlas_tile.tx as int;
    let aty = m.atlas_tile.ty as int;
    quad(
        Vertex { x: x0 as i32, y: y0 as i32, page, tile: pack_uv(atx * 8, aty * 8), color },
        Vertex { x: x0 as i32, y: y1 as i32, page, tile: pack_uv(atx * 8, (aty + 1) * 8), color },
        Vertex {
            x: x1 as i32,
            y: y1 as i32,
            page,
            tile: pack_uv((atx + 1) * 8, (aty + 1) * 8),
            color,
        },
        Vertex { x: x1 as i32, y: y0 as i32, page, tile: pack_uv((atx + 1) * 8, aty * 8), color },
    )
}

/// The quads of the solid runs from index `i` on.
pub open spec fn flip_solids_from(
    solids: Seq<RasterTileSolid>,
    x: int,
    y: int,
    color: Color,
    fx: bool,
    fy: bool,
    i: int,
) -> Seq<Vertex>
    decreases solids.len() - i,
{
    if i < 0 || i >= solids.len() {
        Seq::empty()
    } else {
        flip_solid_quad(solids[i], x, y, color, fx, fy) + flip_solids_from(
            solids,
            x,
            y,
            color,
            fx,
            fy,
            i + 1,
        )
    }
}

/// The quads of the mask tiles from index `i` on.
pub open spec fn flip_masks_from(
    masks: Seq<RasterTileMask>,
    pages: Seq<crate::atlas::AtlasPage>,
    x: int,
    y: int,
    color: Color,
    fx: bool,
    fy: bool,
    i: int,
) -> Seq<Vertex>
    decreases masks.len() - i,
{
    if i < 0 || i >= masks.len() {
        Seq::empty()
    } else {
        flip_mask_quad(masks[i], pages, x, y, color, fx, fy) + flip_masks_from(
            masks,
            pages,
            x,
            y,
            color,
            fx,
            fy,
            i + 1,
        )
    }
}

/// All the vertices one placement of a tile set adds: the solid quads,
/// then the mask quads.
pub open spec fn path_flip_vertices(
    t: RasterTiles,
    pages: Seq<crate::atlas::AtlasPage>,
    x: int,
    y: int,
    color: Color,
    fx: bool,
    fy: bool,
) -> Seq<Vertex> {
    flip_solids_from(t.solid@, x, y, color, fx, fy, 0) + flip_masks_from(
        t.mask@,
        pages,
        x,
        y,
        color,
        fx,
        fy,
        0,
    )
}

impl Scene {
    /// Places a rasterized tile set at `(x, y)`: two triangles per solid
    /// run and per mask tile, mirrored per axis when flipped, so one
    /// rasterized corner serves all four corners of a rounded rectangle.
    #[verifier::loop_isolation(false)]
    #[verifier::rlimit(60)]
    pub fn path_flip(
        &mut self,
        tiles: &RasterTiles,
        atlas: &Atlas,
        x: i32,
        y: i32,
        color: Color,
        flip_x: bool,
        flip_y: bool,
    )
        requires
            old(self).wf(),
            tiles_wf(*tiles),
            tiles_in_atlas(*tiles, atlas.pages@),
            -0x1000_0000 <= x <= 0x1000_0000,
            -0x1000_0000 <= y <= 0x1000_0000,
        ensures
            final(self).wf(),
            final(self).vertices@ == old(self).vertices@ + path_flip_vertices(
                *tiles,
                atlas.pages@,
                x as int,
                y as int,
                color,
                flip_x,
                flip_y,
            ),
            final(self).atlas_tiles@ == old(self).atlas_tiles@,
            final(self).atlas_data@ == old(self).atlas_data@,
    {
        let ghost gx = x as int;
        let ghost gy = y as int;
        let ns = tiles.solid.len();
        let mut i: usize = 0;
        while i < ns
            invariant
                0 <= i <= ns,
                ns == tiles.solid@.len(),
                self.vertices@ + flip_solids_from(
                    tiles.solid@,
                    gx,
                    gy,
                    color,
                    flip_x,
                    flip_y,
                    i as int,
                ) == old(self).vertices@ + flip_solids_from(
                    tiles.solid@,
                    gx,
                    gy,
                    color,
                    flip_x,
                    flip_y,
                    0,
                ),
                self.atlas_tiles@ == old(self).atlas_tiles@,
                self.atlas_data@ == old(self).atlas_data@,
            decreases ns - i,
        {
            let s = tiles.solid[i];
            let dx0: i64 = s.tx as i64 * 8;
            let dx1: i64 = (s.tx as i64 + s.width as i64) * 8;
            let dy0: i64 = s.ty as i64 * 8;
            let dy1: i64 = (s.ty as i64 + 1) * 8;
            let x0 = (if flip_x {
                x as i64 - dx0
            } else {
                x as i64 + dx0
            }) as i32;
            let x1 = (if flip_x {
                x as i64 - dx1
            } else {
                x as i64 + dx1
            }) as i32;
            let y0 = (if flip_y {
                y as i64 - dy0
            } else {
                y as i64 + dy0
            }) as i32;
            let y1 = (if flip_y {
                y as i64 - dy1
            } else {
                y as i64 + dy1
            }) as i32;
            let v00 = Vertex { x: x0, y: y0, page: SOLID_PAGE, tile: 0, color };
            let v01 = Vertex { x: x0, y: y1, page: SOLID_PAGE, tile: 0, color };
            let v11 = Vertex { x: x1, y: y1, page: SOLID_PAGE, tile: 0, color };
            let v10 = Vertex { x: x1, y: y0, page: SOLID_PAGE, tile: 0, color };
            let ghost before = self.vertices@;
            self.vertices.push(v00);
            self.vertices.push(v01);
            self.vertices.push(v11);
            self.vertices.push(v11);
            self.vertices.push(v10);
            self.vertices.push(v00);
            proof {
                assert(self.vertices@ =~= before + flip_solid_quad(
                    tiles.solid@[i as int],
                    gx,
                    gy,
                    color,
                    flip_x,
                    flip_y,
                ));
                assert(self.vertices@ + flip_solids_from(
                    tiles.solid@,
                    gx,
                    gy,
                    color,
                    flip_x,
                    flip_y,
                    i as int + 1,
                ) =~= before + flip_solids_from(
                    tiles.solid@,
                    gx,
                    gy,
                    color,
                    flip_x,
                    flip_y,
                    i as int,
                ));
            }
            i += 1;
        }
        proof {
            assert(flip_solids_from(tiles.solid@, gx, gy, color, flip_x, flip_y, ns as int)
                =~= Seq::<Vertex>::empty());
            assert(self.vertices@ =~= old(self).vertices@ + flip_solids_from(
                tiles.solid@,
                gx,
                gy,
                color,
                flip_x,
                flip_y,
                0,
            ));
        }
        let ghost mid = self.vertices@;
        let nm = tiles.mask.len();
        let mut j: usize = 0;
        while j < nm
            invariant
                0 <= j <= nm,
                nm == tiles.mask@.len(),
                self.vertices@ + flip_masks_from(
                    tiles.mask@,
                    atlas.pages@,
                    gx,
                    gy,
                    color,
                    flip_x,
                    flip_y,
                    j as int,
                ) == mid + flip_masks_from(
                    tiles.mask@,
                    atlas.pages@,
                    gx,
                    gy,
                    color,
                    flip_x,
                    flip_y,
                    0,
                ),
                self.atlas_tiles@ == old(self).atlas_tiles@,
                self.atlas_data@ == old(self).atlas_data@,
            decreases nm - j,
        {
            let m = tiles.mask[j];
            let dx0: i64 = m.tx as i64 * 8;
            let dx1: i64 = (m.tx as i64 + 1) * 8;
            let dy0: i64 = m.ty as i64 * 8;
            let dy1: i64 = (m.ty as i64 + 1) * 8;
            let x0 = (if flip_x {
                x as i64 - dx0
            } else {
                x as i64 + dx0
            }) as i32;
            let x1 = (if flip_x {
                x as i64 - dx1
            } else {
                x as i64 + dx1
            }) as i32;
            let y0 = (if flip_y {
                y as i64 - dy0
            } else {
                y as i64 + dy0
            }) as i32;
            let y1 = (if flip_y {
                y as i64 - dy1
            } else {
                y as i64 + dy1
            }) as i32;
            let page = atlas.pages[m.atlas_tile.page as usize].address;
            let atx = m.atlas_tile.tx as u32;
            let aty = m.atlas_tile.ty as u32;
            let uv00 = (atx * 8) * 0x1_0000 + aty * 8;
            let uv01 = (atx * 8) * 0x1_0000 + (aty + 1) * 8;
            let uv11 = ((atx + 1) * 8) * 0x1_0000 + (aty + 1) * 8;
            let uv10 = ((atx + 1) * 8) * 0x1_0000 + aty * 8;
            let v00 = Vertex { x: x0, y: y0, page, tile: uv00, color };
            let v01 = Vertex { x: x0, y: y1, page, tile: uv01, color };
            let v11 = Vertex { x: x1, y: y1, page, tile: uv11, color };
            let v10 = Vertex { x: x1, y: y0, page, tile: uv10, color };
            let ghost before = self.vertices@;
            self.vertices.push(v00);
            self.vertices.push(v01);
            self.vertices.push(v11);
            self.vertices.push(v11);
            self.vertices.push(v10);
            self.vertices.push(v00);
            proof {
                assert(self.vertices@ =~= before + flip_mask_quad(
                    tiles.mask@[j as int],
                    atlas.pages@,
                    gx,
                    gy,
                    color,
                    flip_x,
                    flip_y,
                ));
                assert(self.vertices@ + flip_masks_from(
                    tiles.mask@,
                    atlas.pages@,
                    gx,
                    gy,
                    color,
                    flip_x,
                    flip_y,
                    j as int + 1,
                ) =~= before + flip_masks_from(
                    tiles.mask@,
                    atlas.pages@,
                    gx,
                    gy,
                    color,
                    flip_x,
                    flip_y,
                    j as int,
                ));
            }
            j += 1;
        }
        proof {
            assert(flip_masks_from(
                tiles.mask@,
                atlas.pages@,
                gx,
                gy,
                color,
                flip_x,
                flip_y,
                nm as int,
            ) =~= Seq::<Vertex>::empty());
            assert(self.vertices@ =~= old(self).vertices@ + path_flip_vertices(
                *tiles,
                atlas.pages@,
                gx,
                gy,
                color,
                flip_x,
                flip_y,
            ));
        }
    }
}

/// The canvas core: one rasterizer, the mask atlas, the shape caches, and
/// the scene being composed.
pub struct Canvas {
    pub rasterizer: Rasterizer,
    pub atlas: Atlas,
    pub glyph_cache: GlyphCache,
    pub squircle_cache: SquircleCache,
    pub scene: Scene,
}

impl Canvas {
    /// Every component within its own bounds, and every cached tile set
    /// well formed with its atlas pages present.
    pub open spec fn wf(self) -> bool {
        &&& self.rasterizer.wf()
        &&& self.atlas.wf()
        &&& self.scene.wf()
        &&& forall|i: int|
            0 <= i < self.glyph_cache.entries@.len() ==> tiles_wf(
                (#[trigger] self.glyph_cache.entries@[i]).tiles,
            ) && tiles_in_atlas(self.glyph_cache.entries@[i].tiles, self.atlas.pages@)
        &&& forall|i: int|
            0 <= i < self.squircle_cache.entries@.len() ==> tiles_wf(
                (#[trigger] self.squircle_cache.entries@[i]).tiles,
            ) && tiles_in_atlas(self.squircle_cache.entries@[i].tiles, self.atlas.pages@)
    }

    /// A canvas with an empty atlas, empty caches, and an empty scene.
    pub fn new() -> (r: Self)
        ensures
            r.wf(),
            r.atlas.total_allocated() == 0,
            r.glyph_cache.entries@.len() == 0,
            r.squircle_cache.entries@.len() == 0,
            r.scene.vertices@.len() == 0,
            r.scene.atlas_tiles@.len() == 0,
    {
        Canvas {
            rasterizer: Rasterizer::new(),
            atlas: Atlas::new(),
            glyph_cache: GlyphCache::new(),
            squircle_cache: SquircleCache::new(),
            scene: Scene::new(),
        }
    }

    /// Rasterizes one path from a fresh state at the origin: the sweep's
    /// solid runs become the result's solid runs; each mask tile receives
    /// the next atlas slot, in sweep order, and its bytes pend in the
    /// scene for the next batched upload. The result is a function of the
    /// path alone; the atlas slots follow the allocation counter.
    #[verifier::loop_isolation(false)]
    #[verifier::rlimit(100)]
    pub fn build_path(&mut self, path: &Vec<PathCmd>) -> (r: RasterTiles)
        requires
            old(self).wf(),
            valid_cmds(path@),
            old(self).atlas.total_allocated() + masks_of(path_events(path@)).len() < 0x8000 * (
            PAGE_TILES as int),
        ensures
            final(self).wf(),
            tiles_wf(r),
            tiles_in_atlas(r, final(self).atlas.pages@),
            final(self).atlas.pages@.len() >= old(self).atlas.pages@.len(),
            r.solid@ == solids_of(path_events(path@)),
            r.mask@.len() == masks_of(path_events(path@)).len(),
            forall|i: int|
                0 <= i < r.mask@.len() ==> {
                    let ms = masks_of(path_events(path@));
                    &&& (#[trigger] r.mask@[i]).tx == ms[i].0
                    &&& r.mask@[i].ty == ms[i].1
                    &&& r.mask@[i].atlas_tile == spec_alloc_tile(
                        old(self).atlas.total_allocated() + i,
                    )
                },
            final(self).atlas.total_allocated() == old(self).atlas.total_allocated() + masks_of(
                path_events(path@),
            ).len(),
            final(self).scene.vertices@ == old(self).scene.vertices@,
            final(self).scene.atlas_tiles@.len() == old(self).scene.atlas_tiles@.len()
                + r.mask@.len(),
            final(self).scene.atlas_tiles@.subrange(0, old(self).scene.atlas_tiles@.len() as int)
                == old(self).scene.atlas_tiles@,
            final(self).scene.atlas_data@.subrange(0, old(self).scene.atlas_data@.len() as int)
                == old(self).scene.atlas_data@,
            forall|i: int|
                0 <= i < r.mask@.len() ==> {
                    let base = old(self).scene.atlas_tiles@.len() as int;
                    &&& final(self).scene.atlas_tiles@[base + i] == (#[trigger] r.mask@[i]).atlas_tile
                    &&& final(self).scene.atlas_data@[base + i].bytes@ == masks_of(
                        path_events(path@),
                    )[i].2
                },
            final(self).glyph_cache.entries@ == old(self).glyph_cache.entries@,
            final(self).squircle_cache.entries@ == old(self).squircle_cache.entries@,
    {
        self.rasterizer.begin();
        self.rasterizer.move_to(PointFx { x: 0, y: 0 });
        proof {
            assert(self.rasterizer.increments@ =~= Seq::<crate::raster::Increment>::empty());
            assert(self.rasterizer.tile_increments@
                =~= Seq::<crate::raster::TileIncrement>::empty());
            assert(path@.subrange(0, 0) =~= Seq::<PathCmd>::empty());
            assert(replay(Seq::<PathCmd>::empty(), init_model()) == init_model());
            assert(model_of(self.rasterizer) == init_model());
        }
        let n = path.len();
        let mut i: usize = 0;
        while i < n
            invariant
                0 <= i <= n,
                n == path@.len(),
                self.rasterizer.wf(),
                model_of(self.rasterizer) == replay(path@.subrange(0, i as int), init_model()),
                self.atlas == old(self).atlas,
                self.scene == old(self).scene,
                self.glyph_cache == old(self).glyph_cache,
                self.squircle_cache == old(self).squircle_cache,
            decreases n - i,
        {
            proof {
                assert(path@.subrange(0, i as int + 1) =~= path@.subrange(0, i as int).push(
                    path@[i as int],
                ));
                lemma_replay_snoc(path@.subrange(0, i as int), init_model(), path@[i as int]);
            }
            let ghost m_before = replay(path@.subrange(0, i as int), init_model());
            match path[i] {
                PathCmd::MoveTo(p) => {
                    self.rasterizer.move_to(p);
                },
                PathCmd::LineTo(p) => {
                    self.rasterizer.line_to(p);
                },
                PathCmd::Close => {
                    self.rasterizer.close();
                },
            }
            proof {
                assert(model_of(self.rasterizer) == step_model(m_before, path@[i as int]));
            }
            i += 1;
        }
        proof {
            assert(path@.subrange(0, n as int) =~= path@);
        }
        let mut coll = TileCollector::new();
        let ghost model_at_end = model_of(self.rasterizer);
        self.rasterizer.end(&mut coll);
        let ghost evs = path_events(path@);
        proof {
            assert(coll.events() =~= evs);
            lemma_sweep_masks_wf(
                crate::sort::sort_incs(model_at_end.incs + seg_incs(
                    model_at_end.cur,
                    model_at_end.start,
                )),
                crate::sort::sort_tincs(model_at_end.tincs + seg_tincs(
                    model_at_end.cur,
                    model_at_end.start,
                )),
                init_sweep_state(),
                0,
            );
        }
        let r = assemble_tiles(&mut self.atlas, &mut self.scene, coll, Ghost(evs));
        proof {
            assert forall|i: int| 0 <= i < self.glyph_cache.entries@.len() implies tiles_wf(
                (#[trigger] self.glyph_cache.entries@[i]).tiles,
            ) && tiles_in_atlas(self.glyph_cache.entries@[i].tiles, self.atlas.pages@) by {
                assert(tiles_in_atlas(
                    old(self).glyph_cache.entries@[i].tiles,
                    old(self).atlas.pages@,
                ));
            }
            assert forall|i: int| 0 <= i < self.squircle_cache.entries@.len() implies tiles_wf(
                (#[trigger] self.squircle_cache.entries@[i]).tiles,
            ) && tiles_in_atlas(self.squircle_cache.entries@[i].tiles, self.atlas.pages@) by {
                assert(tiles_in_atlas(
                    old(self).squircle_cache.entries@[i].tiles,
                    old(self).atlas.pages@,
                ));
            }
        }
        r
    }

    /// Adds a flat-colored rectangle to the scene.
    pub fn rect(&mut self, rect: Rect, color: Color)
        requires
            old(self).wf(),
        ensures
            final(self).wf(),
            final(self).scene.vertices@ == old(self).scene.vertices@ + crate::scene::hrect_quad(
                rect,
                color,
                color,
            ),
            unchanged_but_scene_vertices(*old(self), *final(self)),
    {
        self.scene.rect(rect, color)
    }

    /// Adds a horizontal-gradient rectangle to the scene.
    pub fn hrect(&mut self, rect: Rect, c0: Color, c1: Color)
        requires
            old(self).wf(),
        ensures
            final(self).wf(),
            final(self).scene.vertices@ == old(self).scene.vertices@ + crate::scene::hrect_quad(
                rect,
                c0,
                c1,
            ),
            unchanged_but_scene_vertices(*old(self), *final(self)),
    {
        self.scene.hrect(rect, c0, c1)
    }

    /// Places a rasterized tile set at `(x, y)` without mirroring.
    pub fn path(&mut self, tiles: &RasterTiles, x: i32, y: i32, color: Color)
        requires
            old(self).wf(),
            tiles_wf(*tiles),
            tiles_in_atlas(*tiles, old(self).atlas.pages@),
            -0x1000_0000 <= x <= 0x1000_0000,
            -0x1000_0000 <= y <= 0x1000_0000,
        ensures
            final(self).wf(),
            final(self).scene.vertices@ == old(self).scene.vertices@ + path_flip_vertices(
                *tiles,
                old(self).atlas.pages@,
                x as int,
                y as int,
                color,
                false,
                false,
            ),
            unchanged_but_scene_vertices(*old(self), *final(self)),
    {
        self.scene.path_flip(tiles, &self.atlas, x, y, color, false, false)
    }

    /// Clears the composed vertices out of the scene and returns them for
    /// one draw.
    pub fn take_vertices(&mut self) -> (r: Vec<Vertex>)
        requires
            old(self).wf(),
        ensures
            final(self).wf(),
            r@ == old(self).scene.vertices@,
            final(self).scene.vertices@.len() == 0,
            final(self).scene.atlas_tiles@ == old(self).scene.atlas_tiles@,
            final(self).scene.atlas_data@ == old(self).scene.atlas_data@,
            final(self).atlas == old(self).atlas,
            final(self).glyph_cache.entries@ == old(self).glyph_cache.entries@,
            final(self).squircle_cache.entries@ == old(self).squircle_cache.entries@,
    {
        let mut v: Vec<Vertex> = Vec::new();
        core::mem::swap(&mut v, &mut self.scene.vertices);
        v
    }

    /// Drains the pending mask bytes into one staging buffer and one copy
    /// region per tile: region `i` copies bytes `64 * i ..` into its
    /// page at the tile's pixel position. Mirrors of the pending lists are
    /// cleared; nothing else changes.
    #[verifier::loop_isolation(false)]
    #[verifier::rlimit(60)]
    pub fn upload_atlas(&mut self) -> (r: UploadBatch)
        requires
            old(self).wf(),
            old(self).scene.atlas_tiles@.len() <= 0x100_0000,
        ensures
            final(self).wf(),
            r.regions@.len() == old(self).scene.atlas_tiles@.len(),
            forall|i: int|
                0 <= i < r.regions@.len() ==> #[trigger] r.regions@[i] == (CopyRegion {
                    buffer_offset: (64 * i) as usize,
                    page: old(self).scene.atlas_tiles@[i].page,
                    x: (old(self).scene.atlas_tiles@[i].tx * 8) as i32,
                    y: (old(self).scene.atlas_tiles@[i].ty * 8) as i32,
                }),
            r.bytes@.len() == 64 * old(self).scene.atlas_tiles@.len(),
            forall|i: int, j: int|
                0 <= i < old(self).scene.atlas_data@.len() && 0 <= j < 64 ==> #[trigger] r.bytes@[
                    64 * i + j
                ] == old(self).scene.atlas_data@[i].bytes@[j],
            final(self).scene.atlas_tiles@.len() == 0,
            final(self).scene.atlas_data@.len() == 0,
            final(self).scene.vertices@ == old(self).scene.vertices@,
            final(self).atlas == old(self).atlas,
            final(self).glyph_cache.entries@ == old(self).glyph_cache.entries@,
            final(self).squircle_cache.entries@ == old(self).squircle_cache.entries@,
    {
        let n = self.scene.atlas_tiles.len();
        let mut bytes: Vec<u8> = Vec::new();
        let mut regions: Vec<CopyRegion> = Vec::new();
        let mut i: usize = 0;
        while i < n
            invariant
                0 <= i <= n,
                n == self.scene.atlas_tiles@.len(),
                self.scene == old(self).scene,
                self.scene.wf(),
                n <= 0x100_0000,
                regions@.len() == i,
                bytes@.len() == 64 * i,
                forall|m: int|
                    0 <= m < i ==> #[trigger] regions@[m] == (CopyRegion {
                        buffer_offset: (64 * m) as usize,
                        page: self.scene.atlas_tiles@[m].page,
                        x: (self.scene.atlas_tiles@[m].tx * 8) as i32,
                        y: (self.scene.atlas_tiles@[m].ty * 8) as i32,
                    }),
                forall|m: int, j: int|
                    0 <= m < i && 0 <= j < 64 ==> #[trigger] bytes@[64 * m + j]
                        == self.scene.atlas_data@[m].bytes@[j],
            decreases n - i,
        {
            let t = self.scene.atlas_tiles[i];
            regions.push(
                CopyRegion {
                    buffer_offset: 64 * i,
                    page: t.page,
                    x: t.tx as i32 * 8,
                    y: t.ty as i32 * 8,
                },
            );
            let mut j: usize = 0;
            while j < 64
                invariant
                    0 <= j <= 64,
                    0 <= i < n,
                    n == self.scene.atlas_tiles@.len(),
                    self.scene == old(self).scene,
                    self.scene.wf(),
                    bytes@.len() == 64 * i + j,
                    forall|m: int, jj: int|
                        0 <= m < i && 0 <= jj < 64 ==> #[trigger] bytes@[64 * m + jj]
                            == self.scene.atlas_data@[m].bytes@[jj],
                    forall|jj: int|
                        0 <= jj < j ==> #[trigger] bytes@[64 * (i as int) + jj]
                            == self.scene.atlas_data@[i as int].bytes@[jj],
                decreases 64 - j,
            {
                let b = self.scene.atlas_data[i].bytes[j];
                bytes.push(b);
                j += 1;
            }
            i += 1;
        }
        self.scene.atlas_tiles.clear();
        self.scene.atlas_data.clear();
        UploadBatch { bytes, regions }
    }
}

/// One copy of a staging-buffer range into an atlas page, at pixel
/// position `(x, y)`.
#[derive(Debug, Clone, Copy, PartialEq, Eq, Structural)]
pub struct CopyRegion {
    pub buffer_offset: usize,
    pub page: u16,
    pub x: i32,
    pub y: i32,
}

/// One batched atlas upload: the staging bytes and the per-tile copies.
pub struct UploadBatch {
    pub bytes: Vec<u8>,
    pub regions: Vec<CopyRegion>,
}

/// Everything except the scene's vertex list is the same in both states.
pub open spec fn unchanged_but_scene_vertices(a: Canvas, b: Canvas) -> bool {
    &&& b.atlas == a.atlas
    &&& b.glyph_cache.entries@ == a.glyph_cache.entries@
    &&& b.squircle_cache.entries@ == a.squircle_cache.entries@
    &&& b.scene.atlas_tiles@ == a.scene.atlas_tiles@
    &&& b.scene.atlas_data@ == a.scene.atlas_data@
    &&& b.rasterizer == a.rasterizer
}

/// A rounded rectangle: the outer rectangle, the corner radius in pixels,
/// and the quantized corner smoothing factor.
#[derive(Debug, Clone, Copy)]
pub struct Squircle {
    pub rect: Rect,
    pub radius: u32,
    pub smoothing: crate::fxp::fxp6,
}

/// The cache key of a rounded rectangle: its radius clamped to half the
/// rectangle's extent, plus the smoothing factor. Rectangles sharing these
/// share one cached corner rendering.
pub open spec fn spec_squircle_key(s: Squircle) -> SquircleKey {
    let w2 = (s.rect.x1 - s.rect.x0) / 2;
    let h2 = (s.rect.y1 - s.rect.y0) / 2;
    let r1 = if s.radius as int <= w2 {
        s.radius as int
    } else {
        w2
    };
    let r2 = if r1 <= h2 {
        r1
    } else {
        h2
    };
    SquircleKey { radius: r2 as u32, smoothing: s.smoothing }
}

/// The inner rectangle left after insetting all four sides by the radius.
pub open spec fn squircle_inner(rect: Rect, radius: int) -> Rect {
    Rect {
        x0: vstd::math::min(rect.x0 + radius, rect.x1 as int) as i32,
        y0: vstd::math::min(rect.y0 + radius, rect.y1 as int) as i32,
        x1: vstd::math::max(rect.x1 - radius, rect.x0 as int) as i32,
        y1: vstd::math::max(rect.y1 - radius, rect.y0 as int) as i32,
    }
}

/// The vertices one rounded rectangle adds: five flat rectangles (left,
/// right, top, bottom, center) and the cached corner placed four times
/// with mirroring.
pub open spec fn squircle_vertices(
    t: RasterTiles,
    pages: Seq<crate::atlas::AtlasPage>,
    rect: Rect,
    inner: Rect,
    radius: int,
    color: Color,
) -> Seq<Vertex> {
    crate::scene::hrect_quad(
        Rect { x0: rect.x0, x1: inner.x0, y0: inner.y0, y1: inner.y1 },
        color,
        color,
    ) + crate::scene::hrect_quad(
        Rect { x0: inner.x1, x1: rect.x1, y0: inner.y0, y1: inner.y1 },
        color,
        color,
    ) + crate::scene::hrect_quad(
        Rect { x0: inner.x0, x1: inner.x1, y0: rect.y0, y1: (rect.y0 + radius) as i32 },
        color,
        color,
    ) + crate::scene::hrect_quad(
        Rect { x0: inner.x0, x1: inner.x1, y0: (rect.y1 - radius) as i32, y1: rect.y1 },
        color,
        color,
    ) + crate::scene::hrect_quad(inner, color, color) + path_flip_vertices(
        t,
        pages,
        inner.x0 as int,
        inner.y0 as int,
        color,
        true,
        true,
    ) + path_flip_vertices(t, pages, inner.x1 as int, inner.y0 as int, color, false, true)
        + path_flip_vertices(t, pages, inner.x0 as int, inner.y1 as int, color, true, false)
        + path_flip_vertices(t, pages, inner.x1 as int, inner.y1 as int, color, false, false)
}

impl Canvas {
    /// Draws a rounded rectangle: the corner rendering is taken from the
    /// cache when its key is already present — no rasterization, no atlas
    /// allocation, no atlas room needed then — and otherwise rasterized
    /// once from the given corner path and memoized. Five flat rectangles
    /// plus four mirrored placements of the one cached corner are
    /// composed.
    #[verifier::loop_isolation(false)]
    #[verifier::rlimit(100)]
    pub fn squircle(&mut self, squircle: Squircle, color: Color, corner_path: &Vec<PathCmd>)
        requires
            old(self).wf(),
            rect_in_range(squircle.rect),
            squircle.rect.x0 <= squircle.rect.x1,
            squircle.rect.y0 <= squircle.rect.y1,
            valid_cmds(corner_path@),
            squircle_find(old(self).squircle_cache.entries@, spec_squircle_key(squircle)) < old(
                self,
            ).squircle_cache.entries@.len() || old(self).atlas.total_allocated() + masks_of(
                path_events(corner_path@),
            ).len() < 0x8000 * (PAGE_TILES as int),
        ensures
            final(self).wf(),
            final(self).glyph_cache.entries@ == old(self).glyph_cache.entries@,
            ({
                let key = spec_squircle_key(squircle);
                let hit = squircle_find(old(self).squircle_cache.entries@, key) < old(
                    self,
                ).squircle_cache.entries@.len();
                &&& (hit ==> {
                    &&& final(self).squircle_cache.entries@ == old(self).squircle_cache.entries@
                    &&& final(self).atlas == old(self).atlas
                    &&& final(self).scene.atlas_tiles@ == old(self).scene.atlas_tiles@
                    &&& final(self).scene.atlas_data@ == old(self).scene.atlas_data@
                })
                &&& (!hit ==> {
                    &&& final(self).squircle_cache.entries@.len() == old(
                        self,
                    ).squircle_cache.entries@.len() + 1
                    &&& final(self).squircle_cache.entries@.last().key == key
                    &&& final(self).squircle_cache.entries@.subrange(
                        0,
                        old(self).squircle_cache.entries@.len() as int,
                    ) == old(self).squircle_cache.entries@
                    &&& final(self).atlas.total_allocated() == old(self).atlas.total_allocated()
                        + masks_of(path_events(corner_path@)).len()
                    &&& ({
                        let e = final(self).squircle_cache.entries@.last();
                        &&& e.tiles.solid@ == solids_of(path_events(corner_path@))
                        &&& e.tiles.mask@.len() == masks_of(path_events(corner_path@)).len()
                        &&& forall|i: int|
                            0 <= i < e.tiles.mask@.len() ==> {
                                let ms = masks_of(path_events(corner_path@));
                                let base = old(self).scene.atlas_tiles@.len() as int;
                                &&& (#[trigger] e.tiles.mask@[i]).tx == ms[i].0
                                &&& e.tiles.mask@[i].ty == ms[i].1
                                &&& e.tiles.mask@[i].atlas_tile == spec_alloc_tile(
                                    old(self).atlas.total_allocated() + i,
                                )
                                &&& final(self).scene.atlas_tiles@[base + i]
                                    == e.tiles.mask@[i].atlas_tile
                                &&& final(self).scene.atlas_data@[base + i].bytes@ == ms[i].2
                            }
                    })
                    &&& final(self).scene.atlas_tiles@.len() == old(self).scene.atlas_tiles@.len()
                        + masks_of(path_events(corner_path@)).len()
                    &&& final(self).scene.atlas_data@.len() == old(self).scene.atlas_data@.len()
                        + masks_of(path_events(corner_path@)).len()
                    &&& final(self).scene.atlas_tiles@.subrange(
                        0,
                        old(self).scene.atlas_tiles@.len() as int,
                    ) == old(self).scene.atlas_tiles@
                    &&& final(self).scene.atlas_data@.subrange(
                        0,
                        old(self).scene.atlas_data@.len() as int,
                    ) == old(self).scene.atlas_data@
                })
                &&& ({
                    let idx = squircle_find(final(self).squircle_cache.entries@, key);
                    let t = final(self).squircle_cache.entries@[idx].tiles;
                    let inner = squircle_inner(squircle.rect, key.radius as int);
                    final(self).scene.vertices@ == old(self).scene.vertices@ + squircle_vertices(
                        t,
                        final(self).atlas.pages@,
                        squircle.rect,
                        inner,
                        key.radius as int,
                        color,
                    )
                })
            }),
    {
        let w2 = squircle.rect.width() / 2;
        let h2 = squircle.rect.height() / 2;
        let r1 = if squircle.radius <= w2 {
            squircle.radius
        } else {
            w2
        };
        let radius = if r1 <= h2 {
            r1
        } else {
            h2
        };
        let key = SquircleKey { radius, smoothing: squircle.smoothing };
        proof {
            assert(key == spec_squircle_key(squircle));
            lemma_squircle_find(self.squircle_cache.entries@, key);
        }
        let mut hit = false;
        match self.squircle_cache.get(key) {
            Some(_) => {
                hit = true;
            },
            None => {},
        }
        if !hit {
            let tiles = self.build_path(corner_path);
            let ghost gtiles = tiles;
            self.squircle_cache.insert(key, tiles);
            proof {
                assert(self.squircle_cache.entries@.subrange(
                    0,
                    old(self).squircle_cache.entries@.len() as int,
                ) =~= old(self).squircle_cache.entries@);
                crate::cache::lemma_squircle_find_at(
                    self.squircle_cache.entries@,
                    key,
                    old(self).squircle_cache.entries@.len() as int,
                );
                assert(self.squircle_cache.entries@.last().tiles == gtiles);
            }
        }
        proof {
            lemma_squircle_find(self.squircle_cache.entries@, key);
        }
        let radius_i = radius as i32;
        let inner = squircle.rect.margin(
            Margin { left: radius_i, right: radius_i, top: radius_i, bottom: radius_i },
        );
        proof {
            assert(inner == squircle_inner(squircle.rect, key.radius as int));
        }
        let ghost v0 = self.scene.vertices@;
        self.scene.rect(
            Rect { x0: squircle.rect.x0, x1: inner.x0, y0: inner.y0, y1: inner.y1 },
            color,
        );
        self.scene.rect(
            Rect { x0: inner.x1, x1: squircle.rect.x1, y0: inner.y0, y1: inner.y1 },
            color,
        );
        self.scene.rect(
            Rect { x0: inner.x0, x1: inner.x1, y0: squircle.rect.y0, y1: squircle.rect.y0 + radius_i },
            color,
        );
        self.scene.rect(
            Rect { x0: inner.x0, x1: inner.x1, y0: squircle.rect.y1 - radius_i, y1: squircle.rect.y1 },
            color,
        );
        self.scene.rect(inner, color);
        let corner = match self.squircle_cache.get(key) {
            Some(t) => t,
            None => {
                proof {
                    assert(false);
                }
                unreached()
            },
        };
        self.scene.path_flip(corner, &self.atlas, inner.x0, inner.y0, color, true, true);
        self.scene.path_flip(corner, &self.atlas, inner.x1, inner.y0, color, false, true);
        self.scene.path_flip(corner, &self.atlas, inner.x0, inner.y1, color, true, false);
        self.scene.path_flip(corner, &self.atlas, inner.x1, inner.y1, color, false, false);
        proof {
            let idx = squircle_find(self.squircle_cache.entries@, key);
            let t = self.squircle_cache.entries@[idx].tiles;
            assert(self.scene.vertices@ =~= v0 + squircle_vertices(
                t,
                self.atlas.pages@,
                squircle.rect,
                inner,
                key.radius as int,
                color,
            ));
        }
    }
}

/// One glyph outline, already translated by its subpixel offset and
/// flattened to line commands, keyed by the glyph's cache identity.
pub struct GlyphOutline {
    pub key: GlyphKey,
    pub cmds: Vec<PathCmd>,
}

/// The outlines an outline source supplies for one build pass.
pub struct GlyphOutlines {
    pub entries: Vec<GlyphOutline>,
}

/// Every outline's commands in range.
pub open spec fn outlines_valid(s: Seq<GlyphOutline>) -> bool {
    forall|i: int| 0 <= i < s.len() ==> valid_cmds((#[trigger] s[i]).cmds@)
}

/// A present key stays present, at the same index, when the cache grows.
pub proof fn lemma_glyph_find_push(s: Seq<GlyphEntry>, size: FontSize, key: GlyphKey, e: GlyphEntry)
    requires
        glyph_find(s, size, key) < s.len(),
    ensures
        glyph_find(s.push(e), size, key) == glyph_find(s, size, key),
    decreases s.len(),
{
    lemma_glyph_find(s, size, key);
    crate::cache::lemma_glyph_find_at(s.push(e), size, key, glyph_find(s, size, key));
}

/// Whether a build pass over the outlines rasterizes outline `m`: its key
/// is neither in the starting cache nor supplied by an earlier outline of
/// the same pass.
pub open spec fn outline_is_new(
    entries0: Seq<GlyphEntry>,
    size: FontSize,
    outlines: Seq<GlyphOutline>,
    m: int,
) -> bool {
    &&& glyph_find(entries0, size, outlines[m].key) == entries0.len()
    &&& forall|k: int| 0 <= k < m ==> (#[trigger] outlines[k]).key != outlines[m].key
}

/// How many cache entries the pass adds for the outlines before `m`.
pub open spec fn built_count_before(
    entries0: Seq<GlyphEntry>,
    size: FontSize,
    outlines: Seq<GlyphOutline>,
    m: int,
) -> int
    decreases m,
{
    if m <= 0 {
        0
    } else {
        built_count_before(entries0, size, outlines, m - 1) + if outline_is_new(
            entries0,
            size,
            outlines,
            m - 1,
        ) {
            1int
        } else {
            0int
        }
    }
}

/// How many mask tiles the pass allocates for the outlines before `m`.
pub open spec fn built_masks_before(
    entries0: Seq<GlyphEntry>,
    size: FontSize,
    outlines: Seq<GlyphOutline>,
    m: int,
) -> int
    decreases m,
{
    if m <= 0 {
        0
    } else {
        built_masks_before(entries0, size, outlines, m - 1) + if outline_is_new(
            entries0,
            size,
            outlines,
            m - 1,
        ) {
            masks_of(path_events(outlines[m - 1].cmds@)).len() as int
        } else {
            0int
        }
    }
}

/// Build counts are counts: non-negative and at most one per outline.
proof fn lemma_built_counts_nonneg(
    entries0: Seq<GlyphEntry>,
    size: FontSize,
    outlines: Seq<GlyphOutline>,
    m: int,
)
    ensures
        0 <= built_count_before(entries0, size, outlines, m) <= vstd::math::max(m, 0),
        0 <= built_masks_before(entries0, size, outlines, m),
    decreases m,
{
    if m > 0 {
        lemma_built_counts_nonneg(entries0, size, outlines, m - 1);
    }
}

/// Later prefixes of the pass never allocate fewer masks.
proof fn lemma_built_masks_mono(
    entries0: Seq<GlyphEntry>,
    size: FontSize,
    outlines: Seq<GlyphOutline>,
    a: int,
    b: int,
)
    requires
        a <= b,
    ensures
        built_masks_before(entries0, size, outlines, a) <= built_masks_before(
            entries0,
            size,
            outlines,
            b,
        ),
    decreases b - a,
{
    if a < b {
        lemma_built_masks_mono(entries0, size, outlines, a, b - 1);
    }
}

/// Every build-pass entry index below the running count is the index of
/// exactly one rasterized outline.
proof fn lemma_built_index(
    entries0: Seq<GlyphEntry>,
    size: FontSize,
    outlines: Seq<GlyphOutline>,
    i: int,
    j: int,
)
    requires
        0 <= i <= outlines.len(),
        0 <= j < built_count_before(entries0, size, outlines, i),
    ensures
        exists|m: int|
            0 <= m < i && #[trigger] outline_is_new(entries0, size, outlines, m)
                && built_count_before(entries0, size, outlines, m) == j,
    decreases i,
{
    lemma_built_counts_nonneg(entries0, size, outlines, i - 1);
    if outline_is_new(entries0, size, outlines, i - 1) && built_count_before(
        entries0,
        size,
        outlines,
        i - 1,
    ) == j {
        assert(outline_is_new(entries0, size, outlines, i - 1) && built_count_before(
            entries0,
            size,
            outlines,
            i - 1,
        ) == j);
    } else {
        lemma_built_index(entries0, size, outlines, i - 1, j);
    }
}

/// What one rasterized outline of a build pass leaves behind, relative to
/// the state `c0` the pass started from: with `c` entries and `b` mask
/// slots added by earlier outlines of the pass, the entry at cache index
/// `c0`'s length plus `c` holds exactly this outline's rasterization, its
/// masks own the atlas slots from `c0`'s total plus `b` on, and the
/// pending lists hold those slots and bytes at the matching positions.
pub open spec fn built_entry_pinned(
    c0: Canvas,
    c1: Canvas,
    size: FontSize,
    cmds: Seq<PathCmd>,
    c: int,
    b: int,
    key: GlyphKey,
) -> bool {
    let idx = c0.glyph_cache.entries@.len() + c;
    &&& 0 <= idx < c1.glyph_cache.entries@.len()
    &&& 0 <= b
    &&& ({
        let e = c1.glyph_cache.entries@[idx];
        let ms = masks_of(path_events(cmds));
        let slot0 = c0.atlas.total_allocated() + b;
        let pbase = c0.scene.atlas_tiles@.len() + b;
        &&& e.size == size
        &&& e.key == key
        &&& e.tiles.solid@ == solids_of(path_events(cmds))
        &&& e.tiles.mask@.len() == ms.len()
        &&& pbase + ms.len() <= c1.scene.atlas_tiles@.len()
        &&& pbase + ms.len() <= c1.scene.atlas_data@.len()
        &&& forall|i: int|
            0 <= i < e.tiles.mask@.len() ==> {
                &&& (#[trigger] e.tiles.mask@[i]).tx == ms[i].0
                &&& e.tiles.mask@[i].ty == ms[i].1
                &&& e.tiles.mask@[i].atlas_tile == spec_alloc_tile(slot0 + i)
                &&& c1.scene.atlas_tiles@[pbase + i] == e.tiles.mask@[i].atlas_tile
                &&& c1.scene.atlas_data@[pbase + i].bytes@ == ms[i].2
            }
    })
}

/// Pinning survives later build steps, which only append to the cache and
/// the pending lists.
proof fn lemma_built_pinned_preserved(
    c0: Canvas,
    c_mid: Canvas,
    c_next: Canvas,
    size: FontSize,
    cmds: Seq<PathCmd>,
    c: int,
    b: int,
    key: GlyphKey,
)
    requires
        built_entry_pinned(c0, c_mid, size, cmds, c, b, key),
        c_next.glyph_cache.entries@.len() >= c_mid.glyph_cache.entries@.len(),
        c_next.glyph_cache.entries@.subrange(0, c_mid.glyph_cache.entries@.len() as int)
            == c_mid.glyph_cache.entries@,
        c_next.scene.atlas_tiles@.len() >= c_mid.scene.atlas_tiles@.len(),
        c_next.scene.atlas_tiles@.subrange(0, c_mid.scene.atlas_tiles@.len() as int)
            == c_mid.scene.atlas_tiles@,
        c_next.scene.atlas_data@.len() >= c_mid.scene.atlas_data@.len(),
        c_next.scene.atlas_data@.subrange(0, c_mid.scene.atlas_data@.len() as int)
            == c_mid.scene.atlas_data@,
    ensures
        built_entry_pinned(c0, c_next, size, cmds, c, b, key),
{
    let idx = c0.glyph_cache.entries@.len() + c;
    assert(c_next.glyph_cache.entries@.subrange(0, c_mid.glyph_cache.entries@.len() as int)[idx]
        == c_next.glyph_cache.entries@[idx]);
    let e = c_next.glyph_cache.entries@[idx];
    let ms = masks_of(path_events(cmds));
    let pbase = c0.scene.atlas_tiles@.len() + b;
    assert forall|i: int| 0 <= i < e.tiles.mask@.len() implies {
        let slot0 = c0.atlas.total_allocated() + b;
        &&& (#[trigger] e.tiles.mask@[i]).tx == ms[i].0
        &&& e.tiles.mask@[i].ty == ms[i].1
        &&& e.tiles.mask@[i].atlas_tile == spec_alloc_tile(slot0 + i)
        &&& c_next.scene.atlas_tiles@[pbase + i] == e.tiles.mask@[i].atlas_tile
        &&& c_next.scene.atlas_data@[pbase + i].bytes@ == ms[i].2
    } by {
        assert(0 <= pbase + i < c_mid.scene.atlas_tiles@.len());
        assert(0 <= pbase + i < c_mid.scene.atlas_data@.len());
        assert(c_next.scene.atlas_tiles@.subrange(0, c_mid.scene.atlas_tiles@.len() as int)[
            pbase + i
        ] == c_next.scene.atlas_tiles@[pbase + i]);
        assert(c_next.scene.atlas_data@.subrange(0, c_mid.scene.atlas_data@.len() as int)[
            pbase + i
        ] == c_next.scene.atlas_data@[pbase + i]);
    }
}

impl Canvas {
    /// Builds one glyph rendering into the cache: a present key changes
    /// nothing — no rasterization, no atlas allocation, no atlas room
    /// needed — and a missing key is rasterized once from the outline and
    /// memoized, with its mask bytes and slots pending in the scene;
    /// either way the key is present afterwards.
    #[verifier::loop_isolation(false)]
    #[verifier::rlimit(100)]
    pub fn build_glyph(&mut self, size: FontSize, key: GlyphKey, outline: &Vec<PathCmd>)
        requires
            old(self).wf(),
            valid_cmds(outline@),
            glyph_find(old(self).glyph_cache.entries@, size, key) < old(
                self,
            ).glyph_cache.entries@.len() || old(self).atlas.total_allocated() + masks_of(
                path_events(outline@),
            ).len() < 0x8000 * (PAGE_TILES as int),
        ensures
            final(self).wf(),
            final(self).squircle_cache.entries@ == old(self).squircle_cache.entries@,
            final(self).scene.vertices@ == old(self).scene.vertices@,
            glyph_find(final(self).glyph_cache.entries@, size, key)
                < final(self).glyph_cache.entries@.len(),
            ({
                let hit = glyph_find(old(self).glyph_cache.entries@, size, key) < old(
                    self,
                ).glyph_cache.entries@.len();
                &&& (hit ==> {
                    &&& final(self).glyph_cache.entries@ == old(self).glyph_cache.entries@
                    &&& final(self).atlas == old(self).atlas
                    &&& final(self).scene.atlas_tiles@ == old(self).scene.atlas_tiles@
                    &&& final(self).scene.atlas_data@ == old(self).scene.atlas_data@
                })
                &&& (!hit ==> {
                    &&& final(self).glyph_cache.entries@.len() == old(
                        self,
                    ).glyph_cache.entries@.len() + 1
                    &&& final(self).glyph_cache.entries@.subrange(
                        0,
                        old(self).glyph_cache.entries@.len() as int,
                    ) == old(self).glyph_cache.entries@
                    &&& ({
                        let e = final(self).glyph_cache.entries@.last();
                        &&& e.size == size
                        &&& e.key == key
                        &&& e.tiles.solid@ == solids_of(path_events(outline@))
                        &&& e.tiles.mask@.len() == masks_of(path_events(outline@)).len()
                        &&& forall|i: int|
                            0 <= i < e.tiles.mask@.len() ==> {
                                let ms = masks_of(path_events(outline@));
                                let base = old(self).scene.atlas_tiles@.len() as int;
                                &&& (#[trigger] e.tiles.mask@[i]).tx == ms[i].0
                                &&& e.tiles.mask@[i].ty == ms[i].1
                                &&& e.tiles.mask@[i].atlas_tile == spec_alloc_tile(
                                    old(self).atlas.total_allocated() + i,
                                )
                                &&& final(self).scene.atlas_tiles@[base + i]
                                    == e.tiles.mask@[i].atlas_tile
                                &&& final(self).scene.atlas_data@[base + i].bytes@ == ms[i].2
                            }
                    })
                    &&& final(self).atlas.total_allocated() == old(self).atlas.total_allocated()
                        + masks_of(path_events(outline@)).len()
                    &&& final(self).scene.atlas_tiles@.len() == old(self).scene.atlas_tiles@.len()
                        + masks_of(path_events(outline@)).len()
                    &&& final(self).scene.atlas_data@.len() == old(self).scene.atlas_data@.len()
                        + masks_of(path_events(outline@)).len()
                    &&& final(self).scene.atlas_tiles@.subrange(
                        0,
                        old(self).scene.atlas_tiles@.len() as int,
                    ) == old(self).scene.atlas_tiles@
                    &&& final(self).scene.atlas_data@.subrange(
                        0,
                        old(self).scene.atlas_data@.len() as int,
                    ) == old(self).scene.atlas_data@
                })
            }),
            final(self).glyph_cache.entries@.len() >= old(self).glyph_cache.entries@.len(),
            final(self).glyph_cache.entries@.subrange(
                0,
                old(self).glyph_cache.entries@.len() as int,
            ) == old(self).glyph_cache.entries@,
            final(self).atlas.total_allocated() <= old(self).atlas.total_allocated() + masks_of(
                path_events(outline@),
            ).len(),
    {
        proof {
            lemma_glyph_find(self.glyph_cache.entries@, size, key);
        }
        let mut hit = false;
        match self.glyph_cache.get(size, key) {
            Some(_) => {
                hit = true;
            },
            None => {},
        }
        if !hit {
            let tiles = self.build_path(outline);
            let ghost gtiles = tiles;
            self.glyph_cache.insert(size, key, tiles);
            proof {
                assert(self.glyph_cache.entries@.subrange(
                    0,
                    old(self).glyph_cache.entries@.len() as int,
                ) =~= old(self).glyph_cache.entries@);
                crate::cache::lemma_glyph_find_at(
                    self.glyph_cache.entries@,
                    size,
                    key,
                    old(self).glyph_cache.entries@.len() as int,
                );
                assert(self.glyph_cache.entries@.last().tiles == gtiles);
            }
        } else {
            proof {
                assert(self.glyph_cache.entries@.subrange(
                    0,
                    old(self).glyph_cache.entries@.len() as int,
                ) =~= old(self).glyph_cache.entries@);
            }
        }
    }

    /// Builds every supplied glyph outline into the cache for the given
    /// font: after the pass each outline's key is present. A key already
    /// present — in the cache or from an earlier outline of the pass — is
    /// not rasterized again and adds nothing to the atlas or the pending
    /// uploads; each new outline adds exactly its rasterization: one cache
    /// entry pinned to its path's events, one atlas slot per mask in
    /// order, and the matching pending slots and bytes.
    #[verifier::loop_isolation(false)]
    #[verifier::spinoff_prover]
    #[verifier::rlimit(100)]
    pub fn build_text_run(&mut self, font: FontScaled, outlines: &GlyphOutlines)
        requires
            old(self).wf(),
            outlines_valid(outlines.entries@),
            old(self).atlas.total_allocated() + built_masks_before(
                old(self).glyph_cache.entries@,
                font.size,
                outlines.entries@,
                outlines.entries@.len() as int,
            ) < 0x8000 * (PAGE_TILES as int),
        ensures
            final(self).wf(),
            final(self).squircle_cache.entries@ == old(self).squircle_cache.entries@,
            final(self).scene.vertices@ == old(self).scene.vertices@,
            forall|m: int|
                0 <= m < outlines.entries@.len() ==> glyph_find(
                    final(self).glyph_cache.entries@,
                    font.size,
                    (#[trigger] outlines.entries@[m]).key,
                ) < final(self).glyph_cache.entries@.len(),
            final(self).glyph_cache.entries@.subrange(
                0,
                old(self).glyph_cache.entries@.len() as int,
            ) == old(self).glyph_cache.entries@,
            final(self).glyph_cache.entries@.len() == old(self).glyph_cache.entries@.len()
                + built_count_before(
                old(self).glyph_cache.entries@,
                font.size,
                outlines.entries@,
                outlines.entries@.len() as int,
            ),
            final(self).atlas.total_allocated() == old(self).atlas.total_allocated()
                + built_masks_before(
                old(self).glyph_cache.entries@,
                font.size,
                outlines.entries@,
                outlines.entries@.len() as int,
            ),
            final(self).scene.atlas_tiles@.len() == old(self).scene.atlas_tiles@.len()
                + built_masks_before(
                old(self).glyph_cache.entries@,
                font.size,
                outlines.entries@,
                outlines.entries@.len() as int,
            ),
            final(self).scene.atlas_data@.len() == old(self).scene.atlas_data@.len()
                + built_masks_before(
                old(self).glyph_cache.entries@,
                font.size,
                outlines.entries@,
                outlines.entries@.len() as int,
            ),
            final(self).scene.atlas_tiles@.subrange(
                0,
                old(self).scene.atlas_tiles@.len() as int,
            ) == old(self).scene.atlas_tiles@,
            final(self).scene.atlas_data@.subrange(0, old(self).scene.atlas_data@.len() as int)
                == old(self).scene.atlas_data@,
            forall|m: int|
                0 <= m < outlines.entries@.len() && outline_is_new(
                    old(self).glyph_cache.entries@,
                    font.size,
                    outlines.entries@,
                    m,
                ) ==> built_entry_pinned(
                    *old(self),
                    *final(self),
                    font.size,
                    (#[trigger] outlines.entries@[m]).cmds@,
                    built_count_before(
                        old(self).glyph_cache.entries@,
                        font.size,
                        outlines.entries@,
                        m,
                    ),
                    built_masks_before(
                        old(self).glyph_cache.entries@,
                        font.size,
                        outlines.entries@,
                        m,
                    ),
                    outlines.entries@[m].key,
                ),
    {
        let ghost entries0 = old(self).glyph_cache.entries@;
        let ghost outs = outlines.entries@;
        let ghost size = font.size;
        let ghost old_len = old(self).glyph_cache.entries@.len() as int;
        let ghost total0 = old(self).atlas.total_allocated();
        let ghost scene0 = old(self).scene.atlas_tiles@.len() as int;
        let n = outlines.entries.len();
        let mut i: usize = 0;
        while i < n
            invariant
                0 <= i <= n,
                n == outs.len(),
                self.wf(),
                self.squircle_cache.entries@ == old(self).squircle_cache.entries@,
                self.scene.vertices@ == old(self).scene.vertices@,
                self.glyph_cache.entries@.subrange(0, old_len) == entries0,
                self.glyph_cache.entries@.len() == old_len + built_count_before(
                    entries0,
                    size,
                    outs,
                    i as int,
                ),
                self.atlas.total_allocated() == total0 + built_masks_before(
                    entries0,
                    size,
                    outs,
                    i as int,
                ),
                self.scene.atlas_tiles@.len() == scene0 + built_masks_before(
                    entries0,
                    size,
                    outs,
                    i as int,
                ),
                self.scene.atlas_data@.len() == scene0 + built_masks_before(
                    entries0,
                    size,
                    outs,
                    i as int,
                ),
                self.scene.atlas_tiles@.subrange(0, scene0) == old(self).scene.atlas_tiles@,
                self.scene.atlas_data@.subrange(0, scene0) == old(self).scene.atlas_data@,
                forall|m: int|
                    0 <= m < i ==> glyph_find(
                        self.glyph_cache.entries@,
                        size,
                        (#[trigger] outs[m]).key,
                    ) < self.glyph_cache.entries@.len(),
                forall|m: int|
                    0 <= m < i && outline_is_new(entries0, size, outs, m)
                        ==> built_entry_pinned(
                        *old(self),
                        *self,
                        size,
                        (#[trigger] outs[m]).cmds@,
                        built_count_before(entries0, size, outs, m),
                        built_masks_before(entries0, size, outs, m),
                        outs[m].key,
                    ),
            decreases n - i,
        {
            proof {
                lemma_built_counts_nonneg(entries0, size, outs, i as int);
                lemma_built_masks_mono(entries0, size, outs, i as int + 1, n as int);
                assert(valid_cmds(outs[i as int].cmds@));
            }
            let ghost prev = *self;
            let ghost key_i = outs[i as int].key;
            let ghost was_new = outline_is_new(entries0, size, outs, i as int);
            proof {
                // The cache hit at this step is exactly the negation of the
                // pass rasterizing this outline.
                lemma_glyph_find(prev.glyph_cache.entries@, size, key_i);
                lemma_glyph_find(entries0, size, key_i);
                let f = glyph_find(prev.glyph_cache.entries@, size, key_i);
                if was_new && f < prev.glyph_cache.entries@.len() {
                    if f < old_len {
                        assert(prev.glyph_cache.entries@.subrange(0, old_len)[f]
                            == prev.glyph_cache.entries@[f]);
                        assert(entries0[f].size == size && entries0[f].key == key_i);
                        assert(false);
                    } else {
                        lemma_built_index(entries0, size, outs, i as int, f - old_len);
                        let m = choose|m: int|
                            0 <= m < i && #[trigger] outline_is_new(entries0, size, outs, m)
                                && built_count_before(entries0, size, outs, m) == f - old_len;
                        assert(built_entry_pinned(
                            *old(self),
                            prev,
                            size,
                            outs[m].cmds@,
                            built_count_before(entries0, size, outs, m),
                            built_masks_before(entries0, size, outs, m),
                            outs[m].key,
                        ));
                        assert(prev.glyph_cache.entries@[f].key == outs[m].key);
                        assert(outs[m].key == key_i);
                        assert(false);
                    }
                }
                if !was_new && f == prev.glyph_cache.entries@.len() {
                    if glyph_find(entries0, size, key_i) < entries0.len() {
                        let f0 = glyph_find(entries0, size, key_i);
                        assert(prev.glyph_cache.entries@.subrange(0, old_len)[f0]
                            == prev.glyph_cache.entries@[f0]);
                        assert(prev.glyph_cache.entries@[f0].size == size
                            && prev.glyph_cache.entries@[f0].key == key_i);
                        assert(false);
                    } else {
                        let k = choose|k: int| 0 <= k < i && (#[trigger] outs[k]).key == key_i;
                        assert(glyph_find(prev.glyph_cache.entries@, size, outs[k].key)
                            < prev.glyph_cache.entries@.len());
                        assert(false);
                    }
                }
            }
            proof {
                if was_new {
                    assert(built_masks_before(entries0, size, outs, i as int + 1)
                        == built_masks_before(entries0, size, outs, i as int) + masks_of(
                        path_events(outs[i as int].cmds@),
                    ).len());
                    assert(self.atlas.total_allocated() + masks_of(
                        path_events(outs[i as int].cmds@),
                    ).len() < 0x8000 * (PAGE_TILES as int));
                }
            }
            let o = &outlines.entries[i];
            self.build_glyph(font.size, o.key, &o.cmds);
            proof {
                assert(self.glyph_cache.entries@.subrange(
                    0,
                    prev.glyph_cache.entries@.len() as int,
                ) =~= prev.glyph_cache.entries@);
                assert(self.scene.atlas_tiles@.subrange(
                    0,
                    prev.scene.atlas_tiles@.len() as int,
                ) =~= prev.scene.atlas_tiles@);
                assert(self.scene.atlas_data@.subrange(0, prev.scene.atlas_data@.len() as int)
                    =~= prev.scene.atlas_data@);
                assert(self.glyph_cache.entries@.subrange(0, old_len)
                    =~= self.glyph_cache.entries@.subrange(
                    0,
                    prev.glyph_cache.entries@.len() as int,
                ).subrange(0, old_len));
                assert(self.scene.atlas_tiles@.subrange(0, scene0)
                    =~= self.scene.atlas_tiles@.subrange(
                    0,
                    prev.scene.atlas_tiles@.len() as int,
                ).subrange(0, scene0));
                assert(self.scene.atlas_data@.subrange(0, scene0)
                    =~= self.scene.atlas_data@.subrange(
                    0,
                    prev.scene.atlas_data@.len() as int,
                ).subrange(0, scene0));
                assert forall|m: int| 0 <= m < i + 1 implies glyph_find(
                    self.glyph_cache.entries@,
                    size,
                    (#[trigger] outs[m]).key,
                ) < self.glyph_cache.entries@.len() by {
                    if m < i {
                        if self.glyph_cache.entries@.len() == prev.glyph_cache.entries@.len() {
                            assert(self.glyph_cache.entries@ =~= prev.glyph_cache.entries@);
                        } else {
                            assert(self.glyph_cache.entries@ =~= prev.glyph_cache.entries@.push(
                                self.glyph_cache.entries@.last(),
                            ));
                            lemma_glyph_find_push(
                                prev.glyph_cache.entries@,
                                size,
                                outs[m].key,
                                self.glyph_cache.entries@.last(),
                            );
                        }
                    }
                }
                assert forall|m: int|
                    0 <= m < i + 1 && outline_is_new(entries0, size, outs, m)
                        implies built_entry_pinned(
                        *old(self),
                        *self,
                        size,
                        (#[trigger] outs[m]).cmds@,
                        built_count_before(entries0, size, outs, m),
                        built_masks_before(entries0, size, outs, m),
                        outs[m].key,
                    ) by {
                    if m < i {
                        lemma_built_counts_nonneg(entries0, size, outs, m);
                        lemma_built_pinned_preserved(
                            *old(self),
                            prev,
                            *self,
                            size,
                            outs[m].cmds@,
                            built_count_before(entries0, size, outs, m),
                            built_masks_before(entries0, size, outs, m),
                            outs[m].key,
                        );
                    } else {
                        assert(self.glyph_cache.entries@.last() == self.glyph_cache.entries@[
                            old_len + built_count_before(entries0, size, outs, m)
                        ]);
                    }
                }
            }
            i += 1;
        }
    }
}

/// The flat quad of one solid run of a glyph, advanced horizontally and
/// placed with the glyph's y axis pointing up from the baseline.
pub open spec fn glyph_solid_quad(
    s: RasterTileSolid,
    advance: int,
    pen_y: int,
    color: Color,
) -> Seq<Vertex> {
    let x0 = s.tx * 8 + advance;
    let x1 = (s.tx + s.width) * 8 + advance;
    let y0 = -s.ty * 8 + pen_y;
    let y1 = -(s.ty + 1) * 8 + pen_y;
    quad(
        Vertex { x: x0 as i32, y: y0 as i32, page: SOLID_PAGE, tile: 0, color },
        Vertex { x: x0 as i32, y: y1 as i32, page: SOLID_PAGE, tile: 0, color },
        Vertex { x: x1 as i32, y: y1 as i32, page: SOLID_PAGE, tile: 0, color },
        Vertex { x: x1 as i32, y: y0 as i32, page: SOLID_PAGE, tile: 0, color },
    )
}

/// The atlas-sampled quad of one mask tile of a glyph.
pub open spec fn glyph_mask_quad(
    m: RasterTileMask,
    pages: Seq<crate::atlas::AtlasPage>,
    advance: int,
    pen_y: int,
    color: Color,
) -> Seq<Vertex> {
    let x0 = m.tx * 8 + advance;
    let x1 = (m.tx + 1) * 8 + advance;
    let y0 = -m.ty * 8 + pen_y;
    let y1 = -(m.ty + 1) * 8 + pen_y;
    let page = pages[m.atlas_tile.page as int].address;
    let atx = m.atlas_tile.tx as int;
    let aty = m.atlas_tile.ty as int;
    quad(
        Vertex { x: x0 as i32, y: y0 as i32, page, tile: pack_uv(atx * 8, aty * 8), color },
        Vertex { x: x0 as i32, y: y1 as i32, page, tile: pack_uv(atx * 8, (aty + 1) * 8), color },
        Vertex {
            x: x1 as i32,
            y: y1 as i32,
            page,
            tile: pack_uv((atx + 1) * 8, (aty + 1) * 8),
            color,
        },
        Vertex { x: x1 as i32, y: y0 as i32, page, tile: pack_uv((atx + 1) * 8, aty * 8), color },
    )
}

/// The glyph solid quads from run index `i` on.
pub open spec fn glyph_solids_from(
    solids: Seq<RasterTileSolid>,
    advance: int,
    pen_y: int,
    color: Color,
    i: int,
) -> Seq<Vertex>
    decreases solids.len() - i,
{
    if i < 0 || i >= solids.len() {
        Seq::empty()
    } else {
        glyph_solid_quad(solids[i], advance, pen_y, color) + glyph_solids_from(
            solids,
            advance,
            pen_y,
            color,
            i + 1,
        )
    }
}

/// The glyph mask quads from tile index `i` on.
pub open spec fn glyph_masks_from(
    masks: Seq<RasterTileMask>,
    pages: Seq<crate::atlas::AtlasPage>,
    advance: int,
    pen_y: int,
    color: Color,
    i: int,
) -> Seq<Vertex>
    decreases masks.len() - i,
{
    if i < 0 || i >= masks.len() {
        Seq::empty()
    } else {
        glyph_mask_quad(masks[i], pages, advance, pen_y, color) + glyph_masks_from(
            masks,
            pages,
            advance,
            pen_y,
            color,
            i + 1,
        )
    }
}

/// All vertices one glyph's cached tiles add.
pub open spec fn glyph_tiles_vertices(
    t: RasterTiles,
    pages: Seq<crate::atlas::AtlasPage>,
    advance: int,
    pen_y: int,
    color: Color,
) -> Seq<Vertex> {
    glyph_solids_from(t.solid@, advance, pen_y, color, 0) + glyph_masks_from(
        t.mask@,
        pages,
        advance,
        pen_y,
        color,
        0,
    )
}

/// The cache key a positioned glyph renders under: its id plus the
/// fractional part of its advance offset.
pub open spec fn spec_glyph_key(g: crate::typo::TextRunGlyph) -> GlyphKey {
    GlyphKey { id: g.id, offset: crate::fxp::fxp6(g.offset.spec_fract()) }
}

/// The whole-pixel advance a positioned glyph is drawn at, from the run's
/// aligned origin.
pub open spec fn spec_glyph_advance(px: int, g: crate::typo::TextRunGlyph) -> int {
    px + g.offset.0 as int / 64
}

/// The vertices of one cluster's glyphs from index `j` on.
pub open spec fn cluster_glyphs_from(
    entries: Seq<GlyphEntry>,
    size: FontSize,
    glyphs: Seq<crate::typo::TextRunGlyph>,
    pages: Seq<crate::atlas::AtlasPage>,
    px: int,
    pen_y: int,
    color: Color,
    j: int,
) -> Seq<Vertex>
    decreases glyphs.len() - j,
{
    if j < 0 || j >= glyphs.len() {
        Seq::empty()
    } else {
        glyph_tiles_vertices(
            entries[glyph_find(entries, size, spec_glyph_key(glyphs[j]))].tiles,
            pages,
            spec_glyph_advance(px, glyphs[j]),
            pen_y,
            color,
        ) + cluster_glyphs_from(entries, size, glyphs, pages, px, pen_y, color, j + 1)
    }
}

/// The vertices of a run's clusters from index `i` on.
pub open spec fn run_clusters_from(
    entries: Seq<GlyphEntry>,
    size: FontSize,
    clusters: Seq<crate::typo::TextRunGraphemeCluster>,
    pages: Seq<crate::atlas::AtlasPage>,
    px: int,
    pen_y: int,
    color: Color,
    i: int,
) -> Seq<Vertex>
    decreases clusters.len() - i,
{
    if i < 0 || i >= clusters.len() {
        Seq::empty()
    } else {
        cluster_glyphs_from(entries, size, clusters[i].glyphs@, pages, px, pen_y, color, 0)
            + run_clusters_from(entries, size, clusters, pages, px, pen_y, color, i + 1)
    }
}

/// Every glyph of the run is built into the cache, with bounded offsets.
pub open spec fn run_glyphs_ready(
    entries: Seq<GlyphEntry>,
    size: FontSize,
    clusters: Seq<crate::typo::TextRunGraphemeCluster>,
) -> bool {
    forall|i: int, j: int|
        0 <= i < clusters.len() && 0 <= j < (#[trigger] clusters[i]).glyphs@.len() ==> {
            let g = #[trigger] clusters[i].glyphs@[j];
            &&& glyph_find(entries, size, spec_glyph_key(g)) < entries.len()
            &&& -0x100_0000 <= g.offset.0 <= 0x100_0000
        }
}

impl Scene {
    /// Places one glyph's cached tiles at the given advance, baseline up.
    #[verifier::loop_isolation(false)]
    #[verifier::rlimit(60)]
    pub fn glyph_tiles(
        &mut self,
        tiles: &RasterTiles,
        atlas: &Atlas,
        advance: i32,
        pen_y: i32,
        color: Color,
    )
        requires
            old(self).wf(),
            tiles_wf(*tiles),
            tiles_in_atlas(*tiles, atlas.pages@),
            -0x1800_0000 <= advance <= 0x1800_0000,
            -0x1800_0000 <= pen_y <= 0x1800_0000,
        ensures
            final(self).wf(),
            final(self).vertices@ == old(self).vertices@ + glyph_tiles_vertices(
                *tiles,
                atlas.pages@,
                advance as int,
                pen_y as int,
                color,
            ),
            final(self).atlas_tiles@ == old(self).atlas_tiles@,
            final(self).atlas_data@ == old(self).atlas_data@,
    {
        let ga = advance as i64;
        let gy = pen_y as i64;
        let ns = tiles.solid.len();
        let mut i: usize = 0;
        while i < ns
            invariant
                0 <= i <= ns,
                ns == tiles.solid@.len(),
                self.vertices@ + glyph_solids_from(
                    tiles.solid@,
                    advance as int,
                    pen_y as int,
                    color,
                    i as int,
                ) == old(self).vertices@ + glyph_solids_from(
                    tiles.solid@,
                    advance as int,
                    pen_y as int,
                    color,
                    0,
                ),
                self.atlas_tiles@ == old(self).atlas_tiles@,
                self.atlas_data@ == old(self).atlas_data@,
            decreases ns - i,
        {
            let s = tiles.solid[i];
            let x0 = (s.tx as i64 * 8 + ga) as i32;
            let x1 = ((s.tx as i64 + s.width as i64) * 8 + ga) as i32;
            let y0 = (-(s.ty as i64) * 8 + gy) as i32;
            let y1 = (-(s.ty as i64 + 1) * 8 + gy) as i32;
            let v00 = Vertex { x: x0, y: y0, page: SOLID_PAGE, tile: 0, color };
            let v01 = Vertex { x: x0, y: y1, page: SOLID_PAGE, tile: 0, color };
            let v11 = Vertex { x: x1, y: y1, page: SOLID_PAGE, tile: 0, color };
            let v10 = Vertex { x: x1, y: y0, page: SOLID_PAGE, tile: 0, color };
            let ghost before = self.vertices@;
            self.vertices.push(v00);
            self.vertices.push(v01);
            self.vertices.push(v11);
            self.vertices.push(v11);
            self.vertices.push(v10);
            self.vertices.push(v00);
            proof {
                assert(self.vertices@ =~= before + glyph_solid_quad(
                    tiles.solid@[i as int],
                    advance as int,
                    pen_y as int,
                    color,
                ));
                assert(self.vertices@ + glyph_solids_from(
                    tiles.solid@,
                    advance as int,
                    pen_y as int,
                    color,
                    i as int + 1,
                ) =~= before + glyph_solids_from(
                    tiles.solid@,
                    advance as int,
                    pen_y as int,
                    color,
                    i as int,
                ));
            }
            i += 1;
        }
        proof {
            assert(glyph_solids_from(tiles.solid@, advance as int, pen_y as int, color, ns as int)
                =~= Seq::<Vertex>::empty());
            assert(self.vertices@ =~= old(self).vertices@ + glyph_solids_from(
                tiles.solid@,
                advance as int,
                pen_y as int,
                color,
                0,
            ));
        }
        let ghost mid = self.vertices@;
        let nm = tiles.mask.len();
        let mut j: usize = 0;
        while j < nm
            invariant
                0 <= j <= nm,
                nm == tiles.mask@.len(),
                self.vertices@ + glyph_masks_from(
                    tiles.mask@,
                    atlas.pages@,
                    advance as int,
                    pen_y as int,
                    color,
                    j as int,
                ) == mid + glyph_masks_from(
                    tiles.mask@,
                    atlas.pages@,
                    advance as int,
                    pen_y as int,
                    color,
                    0,
                ),
                self.atlas_tiles@ == old(self).atlas_tiles@,
                self.atlas_data@ == old(self).atlas_data@,
            decreases nm - j,
        {
            let m = tiles.mask[j];
            let x0 = (m.tx as i64 * 8 + ga) as i32;
            let x1 = ((m.tx as i64 + 1) * 8 + ga) as i32;
            let y0 = (-(m.ty as i64) * 8 + gy) as i32;
            let y1 = (-(m.ty as i64 + 1) * 8 + gy) as i32;
            let page = atlas.pages[m.atlas_tile.page as usize].address;
            let atx = m.atlas_tile.tx as u32;
            let aty = m.atlas_tile.ty as u32;
            let uv00 = (atx * 8) * 0x1_0000 + aty * 8;
            let uv01 = (atx * 8) * 0x1_0000 + (aty + 1) * 8;
            let uv11 = ((atx + 1) * 8) * 0x1_0000 + (aty + 1) * 8;
            let uv10 = ((atx + 1) * 8) * 0x1_0000 + aty * 8;
            let v00 = Vertex { x: x0, y: y0, page, tile: uv00, color };
            let v01 = Vertex { x: x0, y: y1, page, tile: uv01, color };
            let v11 = Vertex { x: x1, y: y1, page, tile: uv11, color };
            let v10 = Vertex { x: x1, y: y0, page, tile: uv10, color };
            let ghost before = self.vertices@;
            self.vertices.push(v00);
            self.vertices.push(v01);
            self.vertices.push(v11);
            self.vertices.push(v11);
            self.vertices.push(v10);
            self.vertices.push(v00);
            proof {
                assert(self.vertices@ =~= before + glyph_mask_quad(
                    tiles.mask@[j as int],
                    atlas.pages@,
                    advance as int,
                    pen_y as int,
                    color,
                ));
                assert(self.vertices@ + glyph_masks_from(
                    tiles.mask@,
                    atlas.pages@,
                    advance as int,
                    pen_y as int,
                    color,
                    j as int + 1,
                ) =~= before + glyph_masks_from(
                    tiles.mask@,
                    atlas.pages@,
                    advance as int,
                    pen_y as int,
                    color,
                    j as int,
                ));
            }
            j += 1;
        }
        proof {
            assert(glyph_masks_from(
                tiles.mask@,
                atlas.pages@,
                advance as int,
                pen_y as int,
                color,
                nm as int,
            ) =~= Seq::<Vertex>::empty());
            assert(self.vertices@ =~= old(self).vertices@ + glyph_tiles_vertices(
                *tiles,
                atlas.pages@,
                advance as int,
                pen_y as int,
                color,
            ));
        }
    }
}

impl Canvas {
    /// Composes a shaped run at the pen: every glyph must have been built
    /// into the cache first; each is placed at its whole-pixel advance
    /// while its subpixel remainder stays in the cache key. The vertices
    /// added are a function of the cache, the run, and the pen alone.
    #[verifier::loop_isolation(false)]
    #[verifier::rlimit(100)]
    pub fn text_run(&mut self, pen: Pen, text_run: &TextRun)
        requires
            old(self).wf(),
            text_run.wf(),
            -0x1000_0000 <= pen.x <= 0x1000_0000,
            -0x1000_0000 <= pen.y <= 0x1000_0000,
            run_glyphs_ready(
                old(self).glyph_cache.entries@,
                text_run.font.size,
                text_run.clusters@,
            ),
        ensures
            final(self).wf(),
            final(self).scene.vertices@ == old(self).scene.vertices@ + run_clusters_from(
                old(self).glyph_cache.entries@,
                text_run.font.size,
                text_run.clusters@,
                old(self).atlas.pages@,
                pen.x + text_run.spec_offset_x(pen.align_x),
                pen.y as int,
                pen.color,
                0,
            ),
            unchanged_but_scene_vertices(*old(self), *final(self)),
    {
        let px = pen.x + text_run.offset_x(pen.align_x);
        let ghost entries = self.glyph_cache.entries@;
        let ghost pages = self.atlas.pages@;
        let ghost gpx = px as int;
        let size = text_run.font.size;
        let nc = text_run.clusters.len();
        let mut i: usize = 0;
        while i < nc
            invariant
                0 <= i <= nc,
                nc == text_run.clusters@.len(),
                self.glyph_cache.entries@ == entries,
                self.atlas == old(self).atlas,
                self.atlas.pages@ == pages,
                self.scene.wf(),
                self.scene.atlas_tiles@ == old(self).scene.atlas_tiles@,
                self.scene.atlas_data@ == old(self).scene.atlas_data@,
                self.squircle_cache.entries@ == old(self).squircle_cache.entries@,
                self.rasterizer == old(self).rasterizer,
                self.wf(),
                self.scene.vertices@ + run_clusters_from(
                    entries,
                    size,
                    text_run.clusters@,
                    pages,
                    gpx,
                    pen.y as int,
                    pen.color,
                    i as int,
                ) == old(self).scene.vertices@ + run_clusters_from(
                    entries,
                    size,
                    text_run.clusters@,
                    pages,
                    gpx,
                    pen.y as int,
                    pen.color,
                    0,
                ),
            decreases nc - i,
        {
            let cluster = &text_run.clusters[i];
            let ng = cluster.glyphs.len();
            let ghost glyphs = cluster.glyphs@;
            let mut j: usize = 0;
            while j < ng
                invariant
                    0 <= j <= ng,
                    0 <= i < nc,
                    ng == glyphs.len(),
                    nc == text_run.clusters@.len(),
                    glyphs == text_run.clusters@[i as int].glyphs@,
                    self.glyph_cache.entries@ == entries,
                    self.atlas == old(self).atlas,
                    self.atlas.pages@ == pages,
                    self.scene.wf(),
                    self.scene.atlas_tiles@ == old(self).scene.atlas_tiles@,
                    self.scene.atlas_data@ == old(self).scene.atlas_data@,
                    self.squircle_cache.entries@ == old(self).squircle_cache.entries@,
                    self.rasterizer == old(self).rasterizer,
                    self.wf(),
                    self.scene.vertices@ + cluster_glyphs_from(
                        entries,
                        size,
                        glyphs,
                        pages,
                        gpx,
                        pen.y as int,
                        pen.color,
                        j as int,
                    ) + run_clusters_from(
                        entries,
                        size,
                        text_run.clusters@,
                        pages,
                        gpx,
                        pen.y as int,
                        pen.color,
                        i as int + 1,
                    ) == old(self).scene.vertices@ + run_clusters_from(
                        entries,
                        size,
                        text_run.clusters@,
                        pages,
                        gpx,
                        pen.y as int,
                        pen.color,
                        0,
                    ),
                decreases ng - j,
            {
                let g = cluster.glyphs[j];
                let key = GlyphKey { id: g.id, offset: g.offset.fract() };
                proof {
                    assert(key == spec_glyph_key(glyphs[j as int]));
                    lemma_glyph_find(entries, size, key);
                }
                proof {
                    crate::typo::lemma_round_bounds(text_run.width.0 as int);
                }
                let advance = px + g.offset.trunc().i32();
                proof {
                    assert(advance as int == spec_glyph_advance(gpx, glyphs[j as int]));
                }
                let ghost before = self.scene.vertices@;
                let tiles = match self.glyph_cache.get(size, key) {
                    Some(t) => t,
                    None => {
                        proof {
                            assert(false);
                        }
                        unreached()
                    },
                };
                self.scene.glyph_tiles(tiles, &self.atlas, advance, pen.y, pen.color);
                proof {
                    assert(self.scene.vertices@ + cluster_glyphs_from(
                        entries,
                        size,
                        glyphs,
                        pages,
                        gpx,
                        pen.y as int,
                        pen.color,
                        j as int + 1,
                    ) =~= before + cluster_glyphs_from(
                        entries,
                        size,
                        glyphs,
                        pages,
                        gpx,
                        pen.y as int,
                        pen.color,
                        j as int,
                    ));
                }
                j += 1;
            }
            proof {
                assert(cluster_glyphs_from(
                    entries,
                    size,
                    glyphs,
                    pages,
                    gpx,
                    pen.y as int,
                    pen.color,
                    ng as int,
                ) =~= Seq::<Vertex>::empty());
                assert(run_clusters_from(
                    entries,
                    size,
                    text_run.clusters@,
                    pages,
                    gpx,
                    pen.y as int,
                    pen.color,
                    i as int,
                ) == cluster_glyphs_from(entries, size, glyphs, pages, gpx, pen.y as int, pen.color, 0)
                    + run_clusters_from(
                    entries,
                    size,
                    text_run.clusters@,
                    pages,
                    gpx,
                    pen.y as int,
                    pen.color,
                    i as int + 1,
                ));
                assert(self.scene.vertices@ + run_clusters_from(
                    entries,
                    size,
                    text_run.clusters@,
                    pages,
                    gpx,
                    pen.y as int,
                    pen.color,
                    i as int + 1,
                ) =~= self.scene.vertices@ + cluster_glyphs_from(
                    entries,
                    size,
                    glyphs,
                    pages,
                    gpx,
                    pen.y as int,
                    pen.color,
                    ng as int,
                ) + run_clusters_from(
                    entries,
                    size,
                    text_run.clusters@,
                    pages,
                    gpx,
                    pen.y as int,
                    pen.color,
                    i as int + 1,
                ));
            }
            i += 1;
        }
        proof {
            assert(run_clusters_from(
                entries,
                size,
                text_run.clusters@,
                pages,
                gpx,
                pen.y as int,
                pen.color,
                nc as int,
            ) =~= Seq::<Vertex>::empty());
            assert(self.scene.vertices@ =~= old(self).scene.vertices@ + run_clusters_from(
                entries,
                size,
                text_run.clusters@,
                pages,
                gpx,
                pen.y as int,
                pen.color,
                0,
            ));
        }
    }
}

/// Building the same glyph twice rasterizes once: a key inserted by a
/// first build is found by the second, which by `build_glyph`'s contract
/// then changes nothing — no atlas allocation — and yields the identical
/// cached tiles with their identical atlas slots.
pub proof fn lemma_glyph_cache_idempotent(
    entries: Seq<GlyphEntry>,
    size: FontSize,
    key: GlyphKey,
    e: GlyphEntry,
)
    requires
        glyph_find(entries, size, key) == entries.len(),
        e.size == size,
        e.key == key,
    ensures
        glyph_find(entries.push(e), size, key) == entries.len(),
        entries.push(e)[glyph_find(entries.push(e), size, key)].tiles == e.tiles,
{
    lemma_glyph_find(entries, size, key);
    crate::cache::lemma_glyph_find_at(entries.push(e), size, key, entries.len() as int);
}

/// Two rounded rectangles sharing radius and smoothing share one cached
/// corner: a key inserted by the first draw is found by the second, which
/// by `squircle`'s contract then reuses the cached tiles — no
/// rasterization, no atlas allocation — for its four mirrored placements.
pub proof fn lemma_squircle_corner_reuse(
    entries: Seq<crate::cache::SquircleEntry>,
    key: SquircleKey,
    e: crate::cache::SquircleEntry,
)
    requires
        squircle_find(entries, key) == entries.len(),
        e.key == key,
    ensures
        squircle_find(entries.push(e), key) == entries.len(),
        entries.push(e)[squircle_find(entries.push(e), key)].tiles == e.tiles,
{
    lemma_squircle_find(entries, key);
    crate::cache::lemma_squircle_find_at(entries.push(e), key, entries.len() as int);
}

/// Rasterizing the same command list twice yields byte-identical results:
/// the events, and with them the solid runs and the mask positions and
/// bytes, are a function of the commands alone.
pub proof fn lemma_raster_deterministic(cmds: Seq<PathCmd>, e1: Seq<TileEvent>, e2: Seq<TileEvent>)
    requires
        e1 == path_events(cmds),
        e2 == path_events(cmds),
    ensures
        e1 == e2,
        solids_of(e1) == solids_of(e2),
        masks_of(e1) == masks_of(e2),
{
}

} // verus!
