use tile_canvas::canvas::{Canvas, PathCmd};
use tile_canvas::fxp::fxp6;
use tile_canvas::layout::{Margin, Rect};
use tile_canvas::raster::PointFx;
use tile_canvas::scene::rgb_u8;

fn pt(x: i32, y: i32) -> PointFx {
    PointFx { x, y }
}

/// A closed rectangle path in 26.6 units (64 units per pixel).
fn rect_path(x0: i32, y0: i32, x1: i32, y1: i32) -> Vec<PathCmd> {
    vec![
        PathCmd::MoveTo(pt(x0 * 64, y0 * 64)),
        PathCmd::LineTo(pt(x1 * 64, y0 * 64)),
        PathCmd::LineTo(pt(x1 * 64, y1 * 64)),
        PathCmd::LineTo(pt(x0 * 64, y1 * 64)),
        PathCmd::Close,
    ]
}

#[test]
fn raster_determinism() {
    let path = rect_path(1, 1, 21, 13);
    let mut c1 = Canvas::new();
    let mut c2 = Canvas::new();
    let t1 = c1.build_path(&path);
    let t2 = c2.build_path(&path);
    assert_eq!(t1.solid, t2.solid);
    assert_eq!(t1.mask, t2.mask);
    assert_eq!(c1.scene.atlas_data.len(), c2.scene.atlas_data.len());
    for i in 0..c1.scene.atlas_data.len() {
        assert_eq!(c1.scene.atlas_data[i].bytes, c2.scene.atlas_data[i].bytes);
    }
}

#[test]
fn aligned_rect_is_solid() {
    let mut c = Canvas::new();
    let tiles = c.build_path(&rect_path(0, 0, 16, 8));
    assert_eq!(tiles.solid.len(), 1);
    assert_eq!(tiles.solid[0].tx, 0);
    assert_eq!(tiles.solid[0].ty, 0);
    assert_eq!(tiles.solid[0].width, 2);
    assert!(tiles.mask.is_empty());
}

#[test]
fn partial_rect_is_one_mask() {
    let mut c = Canvas::new();
    let tiles = c.build_path(&rect_path(2, 2, 6, 6));
    assert!(tiles.solid.is_empty());
    assert_eq!(tiles.mask.len(), 1);
    assert_eq!(tiles.mask[0].tx, 0);
    assert_eq!(tiles.mask[0].ty, 0);
    let bytes = &c.scene.atlas_data[0].bytes;
    assert_eq!(bytes.len(), 64);
    for y in 0..8 {
        for x in 0..8 {
            let expect = if (2..6).contains(&x) && (2..6).contains(&y) { 255 } else { 0 };
            assert_eq!(bytes[y * 8 + x], expect, "byte at ({x}, {y})");
        }
    }
}

#[test]
fn overlapping_rects_clamp_like_one() {
    let mut once = Canvas::new();
    let t_once = once.build_path(&rect_path(2, 2, 6, 6));

    let mut twice = Canvas::new();
    let mut doubled = rect_path(2, 2, 6, 6);
    doubled.extend(rect_path(2, 2, 6, 6));
    let t_twice = twice.build_path(&doubled);

    assert_eq!(t_once.solid, t_twice.solid);
    assert_eq!(t_once.mask.len(), t_twice.mask.len());
    for i in 0..t_once.mask.len() {
        assert_eq!(t_once.mask[i].tx, t_twice.mask[i].tx);
        assert_eq!(t_once.mask[i].ty, t_twice.mask[i].ty);
        assert_eq!(once.scene.atlas_data[i].bytes, twice.scene.atlas_data[i].bytes);
    }
}

#[test]
fn overlapping_solid_rects_clamp_like_one() {
    let mut once = Canvas::new();
    let t_once = once.build_path(&rect_path(0, 0, 16, 8));

    let mut twice = Canvas::new();
    let mut doubled = rect_path(0, 0, 16, 8);
    doubled.extend(rect_path(0, 0, 16, 8));
    let t_twice = twice.build_path(&doubled);

    assert_eq!(t_once.solid, t_twice.solid);
    assert_eq!(t_once.mask, t_twice.mask);
}

#[test]
fn degenerate_path_yields_nothing() {
    let mut c = Canvas::new();
    let tiles = c.build_path(&vec![
        PathCmd::MoveTo(pt(100, 100)),
        PathCmd::LineTo(pt(100, 100)),
        PathCmd::Close,
    ]);
    assert!(tiles.solid.is_empty());
    assert!(tiles.mask.is_empty());
}

#[test]
fn empty_path_yields_nothing() {
    let mut c = Canvas::new();
    let tiles = c.build_path(&Vec::new());
    assert!(tiles.solid.is_empty());
    assert!(tiles.mask.is_empty());
}

#[test]
fn fxp6_trunc_fract_identity() {
    for v in [-129i32, -65, -64, -63, -1, 0, 1, 63, 64, 65, 200] {
        let f = fxp6::new(v);
        assert_eq!(f.trunc().0 + f.fract().0, v);
        assert!(f.fract().0 >= 0 && f.fract().0 < 64);
    }
}

#[test]
fn fxp6_floor_of_negative() {
    assert_eq!(fxp6::new(-1).i32(), -1);
    assert_eq!(fxp6::new(-64).i32(), -1);
    assert_eq!(fxp6::new(-65).i32(), -2);
    assert_eq!(fxp6::new(130).i32(), 2);
    assert_eq!(fxp6::new(0).i32(), 0);
}

#[test]
fn rect_measures_and_hittest() {
    let r = Rect { x0: 2, x1: 10, y0: 3, y1: 7 };
    assert_eq!(r.width(), 8);
    assert_eq!(r.height(), 4);
    assert!(r.hittest(2, 3));
    assert!(r.hittest(10, 7));
    assert!(!r.hittest(11, 5));
    let moved = r.offset(5, -1);
    assert_eq!(moved.x0, 7);
    assert_eq!(moved.y1, 6);
}

#[test]
fn rect_margin_clamps_at_opposite_edge() {
    let r = Rect { x0: 0, x1: 10, y0: 0, y1: 10 };
    let inner = r.margin(Margin { left: 3, right: 3, top: 4, bottom: 4 });
    assert_eq!(inner, Rect { x0: 3, x1: 7, y0: 4, y1: 6 });
    let collapsed = r.margin(Margin { left: 20, right: 20, top: 20, bottom: 20 });
    assert_eq!(collapsed, Rect { x0: 10, x1: 0, y0: 10, y1: 0 });
}

#[test]
fn rgb_u8_packs_channels() {
    assert_eq!(rgb_u8(0x12, 0x34, 0x56), 0x123456);
    assert_eq!(rgb_u8(255, 0, 0), 0xFF0000);
    assert_eq!(rgb_u8(0, 0, 0), 0);
}
