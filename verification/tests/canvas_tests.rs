use tile_canvas::atlas::{Atlas, AtlasTile, PAGE_TILES};
use tile_canvas::canvas::{Canvas, GlyphOutline, GlyphOutlines, PathCmd, Squircle};
use tile_canvas::fxp::fxp6;
use tile_canvas::layout::{Align, Rect};
use tile_canvas::raster::PointFx;
use tile_canvas::scene::Color;
use tile_canvas::descriptor::{Descriptors, GpuDescriptors};
use tile_canvas::num::div_align_up;
use tile_canvas::raster::Rasterizer;
use tile_canvas::timeline::{Pool, PoolState, Timeline};
use tile_canvas::typo::{
    FontProperties, FontScaled, GlyphKey, Pen, TextRun, TextRunGlyph, TextRunGraphemeCluster,
};

fn pt(x: i32, y: i32) -> PointFx {
    PointFx { x, y }
}

fn rect_path(x0: i32, y0: i32, x1: i32, y1: i32) -> Vec<PathCmd> {
    vec![
        PathCmd::MoveTo(pt(x0 * 64, y0 * 64)),
        PathCmd::LineTo(pt(x1 * 64, y0 * 64)),
        PathCmd::LineTo(pt(x1 * 64, y1 * 64)),
        PathCmd::LineTo(pt(x0 * 64, y1 * 64)),
        PathCmd::Close,
    ]
}

fn atlas_total(a: &Atlas) -> usize {
    match a.pages.last() {
        Some(last) => (a.pages.len() - 1) * PAGE_TILES + last.next_tile,
        None => 0,
    }
}

fn black() -> Color {
    Color { r: 0, g: 0, b: 0, a: 255 }
}

fn font() -> FontScaled {
    FontScaled {
        font: 0,
        size: 16,
        properties: FontProperties { ascent: 12, descent: 4, height: 18 },
    }
}

#[test]
fn atlas_paging_rolls_to_second_page() {
    let mut atlas = Atlas::new();
    let mut last = AtlasTile { page: 0, tx: 0, ty: 0 };
    for _ in 0..(PAGE_TILES + 1) {
        last = atlas.allocate(7);
    }
    assert_eq!(atlas.pages.len(), 2);
    assert_eq!(last, AtlasTile { page: 1, tx: 0, ty: 0 });
    assert_eq!(atlas.pages[0].next_tile, PAGE_TILES);
    assert_eq!(atlas.pages[1].next_tile, 1);
}

#[test]
fn atlas_first_allocations_are_row_major() {
    let mut atlas = Atlas::new();
    assert!(!atlas.has_free_tile());
    let a = atlas.allocate(0);
    let b = atlas.allocate(0);
    let c = atlas.allocate(0);
    assert_eq!(a, AtlasTile { page: 0, tx: 0, ty: 0 });
    assert_eq!(b, AtlasTile { page: 0, tx: 1, ty: 0 });
    assert_eq!(c, AtlasTile { page: 0, tx: 2, ty: 0 });
    assert!(atlas.has_free_tile());
    assert_eq!(atlas_total(&atlas), 3);
}

#[test]
fn glyph_cache_idempotent_build() {
    let mut c = Canvas::new();
    let key = GlyphKey { id: 7, offset: fxp6::new(32) };
    let outline = rect_path(2, 2, 6, 6);

    c.build_glyph(16, key, &outline);
    assert_eq!(c.glyph_cache.entries.len(), 1);
    assert_eq!(atlas_total(&c.atlas), 1);
    let first = c.glyph_cache.entries[0].tiles.mask[0].atlas_tile;

    c.build_glyph(16, key, &outline);
    assert_eq!(c.glyph_cache.entries.len(), 1);
    assert_eq!(atlas_total(&c.atlas), 1);
    let second = c.glyph_cache.entries[0].tiles.mask[0].atlas_tile;
    assert_eq!(first, second);
    assert_eq!(first, AtlasTile { page: 0, tx: 0, ty: 0 });
}

#[test]
fn squircle_corner_reuse() {
    let mut c = Canvas::new();
    let corner = rect_path(1, 1, 7, 7);
    let sq1 = Squircle {
        rect: Rect { x0: 0, x1: 64, y0: 0, y1: 48 },
        radius: 8,
        smoothing: fxp6::new(38),
    };
    let sq2 = Squircle {
        rect: Rect { x0: 100, x1: 200, y0: 10, y1: 90 },
        radius: 8,
        smoothing: fxp6::new(38),
    };

    c.squircle(sq1, black(), &corner);
    assert_eq!(c.squircle_cache.entries.len(), 1);
    let allocated = atlas_total(&c.atlas);
    let verts_first = c.scene.vertices.len();

    c.squircle(sq2, black(), &corner);
    assert_eq!(c.squircle_cache.entries.len(), 1);
    assert_eq!(atlas_total(&c.atlas), allocated);
    // Five rectangles plus four placements of the same cached corner both
    // times: the second draw adds exactly as many vertices as the first.
    assert_eq!(c.scene.vertices.len(), 2 * verts_first);
}

#[test]
fn squircle_distinct_keys_rasterize_again() {
    let mut c = Canvas::new();
    let corner = rect_path(1, 1, 7, 7);
    let sq1 = Squircle {
        rect: Rect { x0: 0, x1: 64, y0: 0, y1: 48 },
        radius: 8,
        smoothing: fxp6::new(38),
    };
    let sq2 = Squircle {
        rect: Rect { x0: 0, x1: 64, y0: 0, y1: 48 },
        radius: 9,
        smoothing: fxp6::new(38),
    };
    c.squircle(sq1, black(), &corner);
    c.squircle(sq2, black(), &corner);
    assert_eq!(c.squircle_cache.entries.len(), 2);
}

#[test]
fn deferred_retirement_waits_for_the_timeline() {
    let mut tl = Timeline::new();
    let pool = tl.acquire_pool(11);
    assert_eq!(pool.id, 0);
    tl.cmd_retire_buffer(pool, 42);
    let t = tl.submit_pool(pool);
    assert_eq!(t, 1);
    assert_eq!(tl.pools[0].state, PoolState::Executing(1));

    let freed = tl.wait(0);
    assert!(freed.buffers.is_empty());
    assert_eq!(tl.pools[0].shrine.buffers, vec![42]);

    let freed = tl.wait(t);
    assert_eq!(freed.buffers, vec![42]);
    assert!(tl.pools[0].shrine.buffers.is_empty());
}

#[test]
fn retirement_without_executing_pool_destroys_at_once() {
    let mut tl = Timeline::new();
    let destroy_now = tl.retire_buffer(5);
    assert!(destroy_now);
    let pool = tl.acquire_pool(11);
    tl.submit_pool(pool);
    let parked = tl.retire_buffer(6);
    assert!(!parked);
    assert_eq!(tl.pools[0].shrine.buffers, vec![6]);
}

#[test]
fn pool_null_is_zeroed() {
    let p = Pool::null();
    assert_eq!(p.cmd_buffer, 0);
    assert_eq!(p.id, 0);
}

#[test]
fn upload_batch_layout() {
    let mut c = Canvas::new();
    let _ = c.build_path(&rect_path(2, 2, 6, 6));
    let _ = c.build_path(&rect_path(10, 2, 14, 6));
    assert_eq!(c.scene.atlas_tiles.len(), 2);
    let expected: Vec<Vec<u8>> = c.scene.atlas_data.iter().map(|t| t.bytes.clone()).collect();
    let batch = c.upload_atlas();
    assert_eq!(batch.regions.len(), 2);
    assert_eq!(batch.bytes.len(), 128);
    for (i, region) in batch.regions.iter().enumerate() {
        assert_eq!(region.buffer_offset, 64 * i);
        assert_eq!(region.page, 0);
        assert_eq!(&batch.bytes[64 * i..64 * (i + 1)], &expected[i][..]);
    }
    assert_eq!(batch.regions[0].x, 0);
    assert_eq!(batch.regions[0].y, 0);
    assert_eq!(batch.regions[1].x, 8);
    assert_eq!(batch.regions[1].y, 0);
    assert!(c.scene.atlas_tiles.is_empty());
    assert!(c.scene.atlas_data.is_empty());
}

#[test]
fn text_run_composes_built_glyphs() {
    let mut c = Canvas::new();
    let glyph = TextRunGlyph { id: 3, offset: fxp6::new(2 * 64) };
    let key = GlyphKey { id: 3, offset: fxp6::new(0) };
    let outlines = GlyphOutlines {
        entries: vec![GlyphOutline { key, cmds: rect_path(2, 2, 6, 6) }],
    };
    let run = TextRun {
        font: font(),
        clusters: vec![TextRunGraphemeCluster {
            byte_pos: 0,
            glyphs: vec![glyph],
            advance_start: 0,
            advance_end: 2,
        }],
        width: fxp6::new(2 * 64),
    };
    c.build_text_run(run.font, &outlines);
    assert_eq!(c.glyph_cache.entries.len(), 1);

    let pen = Pen { x: 10, y: 20, align_x: Align::Positive, color: black() };
    c.text_run(pen, &run);
    // One mask tile, one quad of six vertices, advanced by two pixels.
    assert_eq!(c.scene.vertices.len(), 6);
    assert_eq!(c.scene.vertices[0].x, 12);
    assert_eq!(c.scene.vertices[0].y, 20);
    assert_eq!(c.scene.vertices[2].x, 20);
    assert_eq!(c.scene.vertices[2].y, 12);
}

#[test]
fn take_vertices_drains_the_scene() {
    let mut c = Canvas::new();
    c.rect(Rect { x0: 0, x1: 4, y0: 0, y1: 4 }, black());
    assert_eq!(c.scene.vertices.len(), 6);
    let v = c.take_vertices();
    assert_eq!(v.len(), 6);
    assert!(c.scene.vertices.is_empty());
}

#[test]
fn text_run_metrics() {
    let run = TextRun {
        font: font(),
        clusters: vec![
            TextRunGraphemeCluster {
                byte_pos: 0,
                glyphs: vec![],
                advance_start: 0,
                advance_end: 5,
            },
            TextRunGraphemeCluster {
                byte_pos: 1,
                glyphs: vec![],
                advance_start: 5,
                advance_end: 11,
            },
        ],
        width: fxp6::new(11 * 64 + 33),
    };
    assert_eq!(run.width(), 12);
    assert_eq!(run.offset_x(Align::Positive), 0);
    assert_eq!(run.offset_x(Align::Negative), -12);
    assert_eq!(run.offset_x(Align::Center), -6);
    assert_eq!(run.cluster_advance(0), 0);
    assert_eq!(run.cluster_advance(1), 5);
    assert_eq!(run.cluster_advance(9), 12);

    let pen = Pen { x: 0, y: 0, align_x: Align::Positive, color: black() };
    let bounds = run.bounds(pen);
    assert_eq!(bounds, Rect { x0: 0, x1: 12, y0: -12, y1: -4 });
    let hit = run.hittest(pen, 4, -5).unwrap();
    assert_eq!(hit.cluster, 1);
    assert!(run.hittest(pen, 40, -5).is_none());
}

#[test]
fn descriptor_free_list_walks_forward() {
    let gpu = GpuDescriptors { layout: 1, set: 2 };
    let mut d = Descriptors::new(4, gpu);
    assert_eq!(d.invalid_index(), 4);
    assert_eq!(d.create(), 0);
    assert_eq!(d.create(), 1);
    assert_eq!(d.create(), 2);
    assert_eq!(d.create(), 3);
    // The head now sits at the out-of-memory sentinel.
    assert_eq!(d.free_handle, d.invalid_index());
}

#[test]
fn div_align_up_covers_remainders() {
    assert_eq!(div_align_up(0, 8), 0);
    assert_eq!(div_align_up(1, 8), 1);
    assert_eq!(div_align_up(8, 8), 1);
    assert_eq!(div_align_up(9, 8), 2);
    assert_eq!(div_align_up(u32::MAX, 1), u32::MAX);
}

#[test]
fn rasterizer_tracks_subpath_start() {
    let mut r = Rasterizer::new();
    assert_eq!(r.current_point(), pt(0, 0));
    r.move_to(pt(128, 192));
    r.line_to(pt(256, 192));
    assert_eq!(r.current_point(), pt(128, 192));
    r.close();
    assert_eq!(r.cur, pt(128, 192));
}

#[test]
fn build_text_run_rasterizes_each_key_once() {
    let mut c = Canvas::new();
    let outlines = GlyphOutlines {
        entries: vec![
            GlyphOutline { key: GlyphKey { id: 1, offset: fxp6::new(0) }, cmds: rect_path(2, 2, 6, 6) },
            // The same key again within one pass: built only once.
            GlyphOutline { key: GlyphKey { id: 1, offset: fxp6::new(0) }, cmds: rect_path(2, 2, 6, 6) },
            GlyphOutline { key: GlyphKey { id: 2, offset: fxp6::new(16) }, cmds: rect_path(10, 2, 14, 6) },
        ],
    };
    c.build_text_run(font(), &outlines);
    assert_eq!(c.glyph_cache.entries.len(), 2);
    assert_eq!(atlas_total(&c.atlas), 2);
    assert_eq!(c.scene.atlas_tiles.len(), 2);

    // A second pass finds every key present: no new entries, no atlas
    // allocations, no new pending uploads.
    let pending = c.scene.atlas_tiles.clone();
    c.build_text_run(font(), &outlines);
    assert_eq!(c.glyph_cache.entries.len(), 2);
    assert_eq!(atlas_total(&c.atlas), 2);
    assert_eq!(c.scene.atlas_tiles, pending);
}
