//! Typography: fonts, pens, shaped text runs and caret hit testing. Shaping
//! itself is an external concern; a `TextRun` arrives already shaped, with
//! glyph ids and fixed-point advances.

use vstd::prelude::*;
use vstd::arithmetic::div_mod::{lemma_div_is_ordered, lemma_div_pos_is_pos};
use crate::fxp::fxp6;
use crate::layout::{Align, Rect, rect_in_range};
use crate::scene::Color;

verus! {

/// A handle to a loaded font, issued by the font engine.
pub type Font = usize;

/// A font pixel size.
pub type FontSize = u32;

/// A glyph identifier within a font.
pub type GlyphId = u32;

/// Where and how text is drawn.
#[derive(Debug, Clone, Copy)]
pub struct Pen {
    pub x: i32,
    pub y: i32,
    pub align_x: Align,
    pub color: Color,
}

impl Default for Pen {
    /// A pen at the origin, drawing opaque black, extending rightward.
    fn default() -> (r: Self)
        ensures
            r.x == 0 && r.y == 0,
            r.color == (Color { r: 0, g: 0, b: 0, a: 255 }),
    {
        Pen { x: 0, y: 0, align_x: Align::Positive, color: Color { r: 0, g: 0, b: 0, a: 255 } }
    }
}

/// Vertical metrics of a scaled font, in pixels.
#[derive(Debug, Clone, Copy, PartialEq, Eq, Structural)]
pub struct FontProperties {
    pub ascent: i32,
    pub descent: i32,
    pub height: i32,
}

impl FontProperties {
    /// The height used to align text vertically.
    pub fn alignment_height(&self) -> (r: i32)
        requires
            -0x1000_0000 <= self.ascent <= 0x1000_0000,
            -0x1000_0000 <= self.descent <= 0x1000_0000,
        ensures
            r == self.ascent + self.descent,
    {
        self.ascent + self.descent
    }
}

/// The identity of a cached glyph rendering: the glyph and its subpixel
/// x offset, quantized to 26.6 fixed point.
#[derive(Debug, Clone, Copy, PartialEq, Eq, Structural, Hash)]
pub struct GlyphKey {
    pub id: GlyphId,
    pub offset: fxp6,
}

/// A font at a fixed pixel size.
#[derive(Debug, Clone, Copy, PartialEq, Eq, Structural)]
pub struct FontScaled {
    pub font: Font,
    pub size: FontSize,
    pub properties: FontProperties,
}

/// One positioned glyph of a shaped run.
#[derive(Debug, Clone, Copy, PartialEq, Eq, Structural)]
pub struct TextRunGlyph {
    pub id: GlyphId,
    pub offset: fxp6,
}

/// One grapheme cluster of a shaped run: its byte position in the source
/// text, its glyphs, and the pixel advance range it spans.
#[derive(Debug)]
pub struct TextRunGraphemeCluster {
    pub byte_pos: usize,
    pub glyphs: Vec<TextRunGlyph>,
    pub advance_start: i32,
    pub advance_end: i32,
}

/// A caret position, as a cluster index.
pub struct Caret {
    pub cluster: usize,
}

/// A shaped text run: the scaled font, the clusters in text order, and the
/// total advance width in 26.6 fixed point.
pub struct TextRun {
    pub font: FontScaled,
    pub clusters: Vec<TextRunGraphemeCluster>,
    pub width: fxp6,
}

/// A 26.6 value rounded to whole pixels, ties away from zero.
pub open spec fn round_px(v: int) -> int {
    if v >= 0 {
        (v + 32) / 64
    } else {
        -((-v + 32) / 64)
    }
}

/// A 26.6 value halved and rounded to whole pixels, ties away from zero.
pub open spec fn round_half_px(v: int) -> int {
    if v >= 0 {
        (v + 64) / 128
    } else {
        -((-v + 64) / 128)
    }
}

/// Rounded widths stay within a few pixels of the unrounded range.
pub proof fn lemma_round_bounds(v: int)
    requires
        -0x100_0000 <= v <= 0x100_0000,
    ensures
        0 <= round_px(v) <= 0x5_0000 || -0x5_0000 <= round_px(v) <= 0,
        -0x5_0000 <= round_px(v) <= 0x5_0000,
        -0x5_0000 <= round_half_px(v) <= 0x5_0000,
{
    assert(0x100_0020int / 64 == 0x4_0000);
    assert(0x100_0040int / 128 == 0x2_0000);
    if v >= 0 {
        lemma_div_pos_is_pos(v + 32, 64);
        lemma_div_is_ordered(v + 32, 0x100_0020, 64);
        lemma_div_pos_is_pos(v + 64, 128);
        lemma_div_is_ordered(v + 64, 0x100_0040, 128);
    } else {
        lemma_div_pos_is_pos(-v + 32, 64);
        lemma_div_is_ordered(-v + 32, 0x100_0020, 64);
        lemma_div_pos_is_pos(-v + 64, 128);
        lemma_div_is_ordered(-v + 64, 0x100_0040, 128);
    }
}

/// Cluster data a specification can see.
pub open spec fn cluster_byte_pos(c: TextRunGraphemeCluster) -> int {
    c.byte_pos as int
}

/// The advance before the cluster containing `byte_pos`, walked in text
/// order from cluster `i` with `advance` accumulated so far.
pub open spec fn spec_cluster_advance(
    clusters: Seq<TextRunGraphemeCluster>,
    byte_pos: int,
    advance: int,
    width_px: int,
    i: int,
) -> int
    decreases clusters.len() - i,
{
    if i < 0 || i >= clusters.len() {
        width_px
    } else if byte_pos < clusters[i].byte_pos {
        advance
    } else if byte_pos == clusters[i].byte_pos {
        clusters[i].advance_start as int
    } else {
        spec_cluster_advance(
            clusters,
            byte_pos,
            clusters[i].advance_start as int,
            width_px,
            i + 1,
        )
    }
}

/// The first cluster whose advance range contains `x`, if any.
pub open spec fn spec_hit_cluster(clusters: Seq<TextRunGraphemeCluster>, x: int, i: int) -> int
    decreases clusters.len() - i,
{
    if i < 0 || i >= clusters.len() {
        clusters.len() as int
    } else if clusters[i].advance_start <= x < clusters[i].advance_end {
        i
    } else {
        spec_hit_cluster(clusters, x, i + 1)
    }
}

impl TextRun {
    /// Coordinates small enough for pixel layout arithmetic.
    pub open spec fn wf(self) -> bool {
        &&& -0x100_0000 <= self.width.0 <= 0x100_0000
        &&& -0x1000_0000 <= self.font.properties.ascent <= 0x1000_0000
        &&& -0x1000_0000 <= self.font.properties.descent <= 0x1000_0000
    }

    /// The run's advance width in whole pixels, rounded ties away from
    /// zero.
    pub fn width(&self) -> (r: i32)
        requires
            self.wf(),
        ensures
            r == round_px(self.width.0 as int),
    {
        proof {
            lemma_round_bounds(self.width.0 as int);
        }
        let v: i64 = self.width.0 as i64;
        if v >= 0 {
            crate::num::floor_div(v + 32, 64) as i32
        } else {
            -(crate::num::floor_div(-v + 32, 64) as i32)
        }
    }

    /// How far the run's origin shifts for the given horizontal alignment.
    pub fn offset_x(&self, align: Align) -> (r: i32)
        requires
            self.wf(),
        ensures
            r == match align {
                Align::Negative => -round_px(self.width.0 as int),
                Align::Center => -round_half_px(self.width.0 as int),
                Align::Positive => 0int,
            },
    {
        proof {
            lemma_round_bounds(self.width.0 as int);
        }
        match align {
            Align::Negative => -self.width(),
            Align::Center => {
                let v: i64 = self.width.0 as i64;
                if v >= 0 {
                    -(crate::num::floor_div(v + 64, 128) as i32)
                } else {
                    crate::num::floor_div(-v + 64, 128) as i32
                }
            },
            Align::Positive => 0,
        }
    }

    /// The pixel rectangle the run covers when drawn at the pen.
    pub fn bounds(&self, pen: Pen) -> (r: Rect)
        requires
            self.wf(),
            -0x1000_0000 <= pen.x <= 0x1000_0000,
            -0x1000_0000 <= pen.y <= 0x1000_0000,
        ensures
            r.x0 == pen.x + self.spec_offset_x(pen.align_x),
            r.x1 == r.x0 + round_px(self.width.0 as int),
            r.y0 == pen.y - self.font.properties.ascent,
            r.y1 == pen.y - self.font.properties.descent,
    {
        proof {
            lemma_round_bounds(self.width.0 as int);
        }
        let ox = self.offset_x(pen.align_x);
        let x0 = pen.x + ox;
        let x1 = x0 + self.width();
        let y0 = pen.y - self.font.properties.ascent;
        let y1 = pen.y - self.font.properties.descent;
        Rect { x0, x1, y0, y1 }
    }

    /// The alignment offset, as a specification.
    pub open spec fn spec_offset_x(self, align: Align) -> int {
        match align {
            Align::Negative => -round_px(self.width.0 as int),
            Align::Center => -round_half_px(self.width.0 as int),
            Align::Positive => 0int,
        }
    }

    /// The caret the point hits: `None` outside the bounds, else the first
    /// cluster whose advance range contains the point, measured with a
    /// two-pixel margin from the run's left edge, else one past the last
    /// cluster.
    #[verifier::loop_isolation(false)]
    pub fn hittest(&self, pen: Pen, x: i32, y: i32) -> (r: Option<Caret>)
        requires
            self.wf(),
            -0x1000_0000 <= pen.x <= 0x1000_0000,
            -0x1000_0000 <= pen.y <= 0x1000_0000,
            -0x1000_0000 <= x <= 0x1000_0000,
            -0x1000_0000 <= y <= 0x1000_0000,
        ensures
            match r {
                Some(c) => {
                    let bx0 = pen.x + self.spec_offset_x(pen.align_x);
                    &&& bx0 <= x <= bx0 + round_px(self.width.0 as int)
                    &&& pen.y - self.font.properties.ascent <= y <= pen.y
                        - self.font.properties.descent
                    &&& c.cluster == spec_hit_cluster(self.clusters@, x - bx0 + 2, 0)
                },
                None => !{
                    let bx0 = pen.x + self.spec_offset_x(pen.align_x);
                    &&& bx0 <= x <= bx0 + round_px(self.width.0 as int)
                    &&& pen.y - self.font.properties.ascent <= y <= pen.y
                        - self.font.properties.descent
                },
            },
    {
        proof {
            lemma_round_bounds(self.width.0 as int);
        }
        let bounds = self.bounds(pen);
        if !bounds.hittest(x, y) {
            return None;
        }
        let relativ_x = x - bounds.x0 + 2;
        let n = self.clusters.len();
        let mut i: usize = 0;
        while i < n
            invariant
                0 <= i <= n,
                n == self.clusters@.len(),
                spec_hit_cluster(self.clusters@, relativ_x as int, i as int) == spec_hit_cluster(
                    self.clusters@,
                    relativ_x as int,
                    0,
                ),
            decreases n - i,
        {
            let c = &self.clusters[i];
            if c.advance_start <= relativ_x && relativ_x < c.advance_end {
                return Some(Caret { cluster: i });
            }
            i += 1;
        }
        Some(Caret { cluster: n })
    }

    /// The pixel advance at which the cluster holding `byte_pos` starts;
    /// past the last cluster, the run's full width.
    #[verifier::loop_isolation(false)]
    pub fn cluster_advance(&self, byte_pos: usize) -> (r: i32)
        requires
            self.wf(),
        ensures
            r == spec_cluster_advance(
                self.clusters@,
                byte_pos as int,
                0,
                round_px(self.width.0 as int),
                0,
            ),
    {
        let mut advance: i32 = 0;
        let n = self.clusters.len();
        let ghost w = round_px(self.width.0 as int);
        let mut i: usize = 0;
        while i < n
            invariant
                0 <= i <= n,
                n == self.clusters@.len(),
                spec_cluster_advance(self.clusters@, byte_pos as int, advance as int, w, i as int)
                    == spec_cluster_advance(self.clusters@, byte_pos as int, 0, w, 0),
            decreases n - i,
        {
            let c = &self.clusters[i];
            if byte_pos < c.byte_pos {
                return advance;
            }
            advance = c.advance_start;
            if byte_pos == c.byte_pos {
                return advance;
            }
            i += 1;
        }
        self.width()
    }
}

} // verus!
