//! The texture atlas: mask tiles are bump-allocated into fixed-capacity
//! pages. Allocation always targets the last page and opens a new page when
//! that one is full; slots are never freed or reused, so every `(page, tx,
//! ty)` triple handed out is distinct.

use vstd::prelude::*;
use vstd::arithmetic::div_mod::{
    lemma_fundamental_div_mod_converse_div, lemma_fundamental_div_mod_converse_mod,
};

verus! {

/// Tiles per page row: 1024-pixel-wide pages of `TILE_SIZE`-pixel tiles.
pub const PAGE_WIDTH: usize = 128;

/// Tile rows per page: 1024-pixel-tall pages of `TILE_SIZE`-pixel tiles.
pub const PAGE_HEIGHT: usize = 128;

/// Tile slots in one page: `PAGE_WIDTH * PAGE_HEIGHT`.
pub const PAGE_TILES: usize = 16384;

/// A shader-visible image handle (a bindless descriptor index).
pub type ImageAddress = u32;

/// The coordinate of one tile slot inside an atlas page.
#[derive(Debug, Clone, Copy, PartialEq, Eq, Structural)]
pub struct AtlasTile {
    pub page: u16,
    pub tx: u8,
    pub ty: u8,
}

/// One fixed-capacity texture page: the device image's shader address and a
/// monotonic slot counter.
pub struct AtlasPage {
    pub address: ImageAddress,
    pub next_tile: usize,
}

/// An ordered sequence of pages; allocation targets the last one.
pub struct Atlas {
    pub pages: Vec<AtlasPage>,
}

impl Atlas {
    /// Pages before the last are exactly full; the last is at most full;
    /// the page count leaves room in a `u16` index.
    pub open spec fn wf(self) -> bool {
        &&& forall|i: int|
            0 <= i < self.pages@.len() - 1 ==> (#[trigger] self.pages@[i]).next_tile
                == PAGE_TILES
        &&& self.pages@.len() > 0 ==> self.pages@.last().next_tile <= PAGE_TILES
        &&& self.pages@.len() <= 0x8000
    }

    /// Total number of slots handed out so far.
    pub open spec fn total_allocated(self) -> int {
        if self.pages@.len() == 0 {
            0
        } else {
            (self.pages@.len() - 1) * PAGE_TILES + self.pages@.last().next_tile
        }
    }

    /// An atlas with no pages.
    pub fn new() -> (r: Self)
        ensures
            r.wf(),
            r.pages@.len() == 0,
            r.total_allocated() == 0,
    {
        Atlas { pages: Vec::new() }
    }

    /// Whether the last page still has a free slot.
    pub fn has_free_tile(&self) -> (r: bool)
        ensures
            r == (self.pages@.len() > 0 && self.pages@.last().next_tile < PAGE_TILES),
    {
        let n = self.pages.len();
        if n == 0 {
            false
        } else {
            self.pages[n - 1].next_tile < PAGE_TILES
        }
    }

    /// Allocates the next tile slot, opening a fresh page at
    /// `new_page_address` when the last page is full. With `n` slots already
    /// handed out, the new slot is slot `n % PAGE_TILES` of page
    /// `n / PAGE_TILES`, row-major inside the page.
    pub fn allocate(&mut self, new_page_address: ImageAddress) -> (r: AtlasTile)
        requires
            old(self).wf(),
            old(self).total_allocated() < 0x8000 * PAGE_TILES,
        ensures
            final(self).wf(),
            final(self).total_allocated() == old(self).total_allocated() + 1,
            r.page as int == old(self).total_allocated() / PAGE_TILES as int,
            r.tx as int == (old(self).total_allocated() % PAGE_TILES as int) % PAGE_WIDTH as int,
            r.ty as int == (old(self).total_allocated() % PAGE_TILES as int) / PAGE_WIDTH as int,
            r.page as int == final(self).pages@.len() - 1,
            old(self).has_page_space() ==> final(self).pages@ == old(self).pages@.update(
                old(self).pages@.len() - 1,
                AtlasPage {
                    address: old(self).pages@.last().address,
                    next_tile: (old(self).pages@.last().next_tile + 1) as usize,
                },
            ),
            !old(self).has_page_space() ==> final(self).pages@ == old(self).pages@.push(
                AtlasPage { address: new_page_address, next_tile: 1 },
            ),
    {
        proof {
            lemma_page_arith(*self);
        }
        if !self.has_free_tile() {
            self.pages.push(AtlasPage { address: new_page_address, next_tile: 0 });
        }
        let last = self.pages.len() - 1;
        let tile_id = self.pages[last].next_tile;
        let address = self.pages[last].address;
        self.pages.set(last, AtlasPage { address, next_tile: tile_id + 1 });

        AtlasTile {
            page: last as u16,
            tx: (tile_id % PAGE_WIDTH) as u8,
            ty: (tile_id / PAGE_WIDTH) as u8,
        }
    }

    /// Whether the last page exists and has a free slot (spec form of
    /// `has_free_tile`).
    pub open spec fn has_page_space(self) -> bool {
        self.pages@.len() > 0 && self.pages@.last().next_tile < PAGE_TILES
    }

    /// Stores the shader address of a page once the device image exists.
    pub fn set_page_address(&mut self, page: usize, address: ImageAddress)
        requires
            page < old(self).pages@.len(),
        ensures
            final(self).pages@ == old(self).pages@.update(
                page as int,
                AtlasPage { address, next_tile: old(self).pages@[page as int].next_tile },
            ),
    {
        let next_tile = self.pages[page].next_tile;
        self.pages.set(page, AtlasPage { address, next_tile });
    }
}

/// With `n` slots handed out, the next slot lands on page `n / PAGE_TILES`
/// at in-page index `n % PAGE_TILES`.
pub proof fn lemma_page_arith(a: Atlas)
    requires
        a.wf(),
    ensures
        a.pages@.len() > 0 ==> a.total_allocated() / PAGE_TILES as int == if a.has_page_space() {
            a.pages@.len() - 1
        } else {
            a.pages@.len() as int
        },
        a.pages@.len() > 0 && a.has_page_space() ==> a.total_allocated() % PAGE_TILES as int
            == a.pages@.last().next_tile,
        a.pages@.len() > 0 && !a.has_page_space() ==> a.total_allocated() % PAGE_TILES as int == 0,
{
    if a.pages@.len() > 0 {
        let len = a.pages@.len() as int;
        let next = a.pages@.last().next_tile as int;
        let pt = PAGE_TILES as int;
        if next < pt {
            lemma_fundamental_div_mod_converse_div(a.total_allocated(), pt, len - 1, next);
            lemma_fundamental_div_mod_converse_mod(a.total_allocated(), pt, len - 1, next);
        } else {
            assert(a.total_allocated() == len * pt + 0) by (nonlinear_arith)
                requires
                    a.total_allocated() == (len - 1) * pt + next,
                    next == pt,
            ;
            lemma_fundamental_div_mod_converse_div(a.total_allocated(), pt, len, 0);
            lemma_fundamental_div_mod_converse_mod(a.total_allocated(), pt, len, 0);
        }
    }
}

/// Bump allocation pages sequentially: with fewer than `PAGE_TILES` slots
/// handed out every slot lands on page zero, and the first slot past a page
/// boundary opens the next page at its top-left corner.
pub proof fn lemma_atlas_paging(n: int)
    requires
        0 <= n,
    ensures
        n < PAGE_TILES ==> n / PAGE_TILES as int == 0,
        n == PAGE_TILES ==> n / PAGE_TILES as int == 1 && n % PAGE_TILES as int == 0,
{
    if n < PAGE_TILES {
        lemma_fundamental_div_mod_converse_div(n, PAGE_TILES as int, 0, n);
    }
    if n == PAGE_TILES {
        lemma_fundamental_div_mod_converse_div(n, PAGE_TILES as int, 1, 0);
        lemma_fundamental_div_mod_converse_mod(n, PAGE_TILES as int, 1, 0);
    }
}

} // verus!
