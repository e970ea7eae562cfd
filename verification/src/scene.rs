//! The per-frame scene accumulator: colored vertex quads for solid tile
//! runs and atlas-sampled quads for mask tiles, plus the pending mask
//! bytes awaiting one batched upload to the atlas.

use vstd::prelude::*;
use crate::atlas::{Atlas, AtlasTile};
use crate::layout::Rect;
use crate::sweep::TileMask;

verus! {

/// An sRGB color with alpha, eight bits per channel.
#[derive(Debug, Clone, Copy, PartialEq, Eq, Structural)]
pub struct Color {
    pub r: u8,
    pub g: u8,
    pub b: u8,
    pub a: u8,
}

/// Packs color channels as `0x00RRGGBB`.
pub fn rgb_u8(r: u32, g: u32, b: u32) -> (c: u32)
    requires
        r < 256,
        g < 256,
        b < 256,
    ensures
        c == b + 0x100 * g + 0x1_0000 * r,
{
    b + 0x100 * g + 0x1_0000 * r
}

/// The sentinel page meaning "no atlas sampling; flat color".
pub const SOLID_PAGE: u32 = 0xFFFF_FFFF;

/// One vertex of a composed quad: pixel position, the atlas page address
/// or the solid sentinel, packed tile texture coordinates, and a color.
#[derive(Debug, Clone, Copy, PartialEq, Eq, Structural)]
pub struct Vertex {
    pub x: i32,
    pub y: i32,
    pub page: u32,
    pub tile: u32,
    pub color: Color,
}

/// The six vertices (two triangles) of a quad between the two corners.
pub open spec fn quad(v00: Vertex, v01: Vertex, v11: Vertex, v10: Vertex) -> Seq<Vertex> {
    seq![v00, v01, v11, v11, v10, v00]
}

/// The six flat-colored vertices of a horizontal-gradient rectangle.
pub open spec fn hrect_quad(rect: Rect, c0: Color, c1: Color) -> Seq<Vertex> {
    quad(
        Vertex { x: rect.x0, y: rect.y0, page: SOLID_PAGE, tile: 0, color: c0 },
        Vertex { x: rect.x0, y: rect.y1, page: SOLID_PAGE, tile: 0, color: c0 },
        Vertex { x: rect.x1, y: rect.y1, page: SOLID_PAGE, tile: 0, color: c1 },
        Vertex { x: rect.x1, y: rect.y0, page: SOLID_PAGE, tile: 0, color: c1 },
    )
}

/// A screen coordinate of a tile corner, mirrored when flipped.
pub open spec fn flip_coord(anchor: int, d: int, flip: bool) -> int {
    if flip {
        anchor - d
    } else {
        anchor + d
    }
}

/// Texture coordinates packed as `u << 16 | v`; both fit in 16 bits.
pub open spec fn pack_uv(u: int, v: int) -> u32 {
    (u * 0x1_0000 + v) as u32
}

/// The per-frame scene: vertices to draw, and mask tiles waiting for one
/// batched atlas upload.
pub struct Scene {
    pub vertices: Vec<Vertex>,
    pub atlas_tiles: Vec<AtlasTile>,
    pub atlas_data: Vec<TileMask>,
}

impl Scene {
    /// Pending upload lists paired one to one, every mask 64 bytes.
    pub open spec fn wf(self) -> bool {
        &&& self.atlas_tiles@.len() == self.atlas_data@.len()
        &&& forall|i: int| 0 <= i < self.atlas_data@.len() ==> (#[trigger] self.atlas_data@[i]).wf()
    }

    /// An empty scene.
    pub fn new() -> (r: Self)
        ensures
            r.wf(),
            r.vertices@.len() == 0,
            r.atlas_tiles@.len() == 0,
            r.atlas_data@.len() == 0,
    {
        Scene { vertices: Vec::new(), atlas_tiles: Vec::new(), atlas_data: Vec::new() }
    }

    /// Adds a flat-colored rectangle.
    pub fn rect(&mut self, rect: Rect, color: Color)
        requires
            old(self).wf(),
        ensures
            final(self).wf(),
            final(self).vertices@ == old(self).vertices@ + hrect_quad(rect, color, color),
            final(self).atlas_tiles@ == old(self).atlas_tiles@,
            final(self).atlas_data@ == old(self).atlas_data@,
    {
        self.hrect(rect, color, color)
    }

    /// Adds a rectangle fading from `c0` on its left edge to `c1` on its
    /// right edge.
    pub fn hrect(&mut self, rect: Rect, c0: Color, c1: Color)
        requires
            old(self).wf(),
        ensures
            final(self).wf(),
            final(self).vertices@ == old(self).vertices@ + hrect_quad(rect, c0, c1),
            final(self).atlas_tiles@ == old(self).atlas_tiles@,
            final(self).atlas_data@ == old(self).atlas_data@,
    {
        let v00 = Vertex { x: rect.x0, y: rect.y0, page: SOLID_PAGE, tile: 0, color: c0 };
        let v01 = Vertex { x: rect.x0, y: rect.y1, page: SOLID_PAGE, tile: 0, color: c0 };
        let v11 = Vertex { x: rect.x1, y: rect.y1, page: SOLID_PAGE, tile: 0, color: c1 };
        let v10 = Vertex { x: rect.x1, y: rect.y0, page: SOLID_PAGE, tile: 0, color: c1 };
        let ghost before = self.vertices@;
        self.vertices.push(v00);
        self.vertices.push(v01);
        self.vertices.push(v11);
        self.vertices.push(v11);
        self.vertices.push(v10);
        self.vertices.push(v00);
        proof {
            assert(self.vertices@ =~= before + hrect_quad(rect, c0, c1));
        }
    }
}

} // verus!
