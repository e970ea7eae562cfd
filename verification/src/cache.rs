//! The shape caches: rasterization results memoized by shape identity.
//! Entries are inserted once and never evicted; a lookup either returns
//! exactly what was stored or misses.

use vstd::prelude::*;
use crate::canvas::RasterTiles;
use crate::fxp::fxp6;
use crate::typo::{FontSize, GlyphKey};

verus! {

/// One memoized glyph rendering.
pub struct GlyphEntry {
    pub size: FontSize,
    pub key: GlyphKey,
    pub tiles: RasterTiles,
}

/// The identity of a cached rounded-corner rendering: the corner radius
/// and the quantized smoothing factor.
#[derive(Debug, Clone, Copy, PartialEq, Eq, Structural, Hash)]
pub struct SquircleKey {
    pub radius: u32,
    pub smoothing: fxp6,
}

/// One memoized rounded-corner rendering.
pub struct SquircleEntry {
    pub key: SquircleKey,
    pub tiles: RasterTiles,
}

/// The index of the entry for `(size, key)`, or the length on a miss.
pub open spec fn glyph_find(s: Seq<GlyphEntry>, size: FontSize, key: GlyphKey) -> int
    decreases s.len(),
{
    if s.len() == 0 {
        0
    } else if s[0].size == size && s[0].key == key {
        0
    } else {
        1 + glyph_find(s.drop_first(), size, key)
    }
}

/// The index of the entry for `key`, or the length on a miss.
pub open spec fn squircle_find(s: Seq<SquircleEntry>, key: SquircleKey) -> int
    decreases s.len(),
{
    if s.len() == 0 {
        0
    } else if s[0].key == key {
        0
    } else {
        1 + squircle_find(s.drop_first(), key)
    }
}

/// The find index is within bounds, hits exactly the key, and is the
/// first such index.
pub proof fn lemma_glyph_find(s: Seq<GlyphEntry>, size: FontSize, key: GlyphKey)
    ensures
        0 <= glyph_find(s, size, key) <= s.len(),
        glyph_find(s, size, key) < s.len() ==> s[glyph_find(s, size, key)].size == size
            && s[glyph_find(s, size, key)].key == key,
        forall|i: int|
            0 <= i < glyph_find(s, size, key) ==> !((#[trigger] s[i]).size == size && s[i].key
                == key),
    decreases s.len(),
{
    if s.len() > 0 && !(s[0].size == size && s[0].key == key) {
        lemma_glyph_find(s.drop_first(), size, key);
        assert forall|i: int|
            0 <= i < glyph_find(s, size, key) implies !((#[trigger] s[i]).size == size && s[i].key
            == key) by {
            if i > 0 {
                assert(s.drop_first()[i - 1] == s[i]);
            }
        }
    }
}

/// As `lemma_glyph_find`, for rounded corners.
pub proof fn lemma_squircle_find(s: Seq<SquircleEntry>, key: SquircleKey)
    ensures
        0 <= squircle_find(s, key) <= s.len(),
        squircle_find(s, key) < s.len() ==> s[squircle_find(s, key)].key == key,
        forall|i: int| 0 <= i < squircle_find(s, key) ==> !((#[trigger] s[i]).key == key),
    decreases s.len(),
{
    if s.len() > 0 && !(s[0].key == key) {
        lemma_squircle_find(s.drop_first(), key);
        assert forall|i: int| 0 <= i < squircle_find(s, key) implies !((#[trigger] s[i]).key
            == key) by {
            if i > 0 {
                assert(s.drop_first()[i - 1] == s[i]);
            }
        }
    }
}

/// Memoized glyph renderings keyed by font size, glyph id, and subpixel
/// offset.
pub struct GlyphCache {
    pub entries: Vec<GlyphEntry>,
}

impl GlyphCache {
    /// An empty cache.
    pub fn new() -> (r: Self)
        ensures
            r.entries@.len() == 0,
    {
        GlyphCache { entries: Vec::new() }
    }

    /// Whether a rendering for `(size, key)` is cached.
    pub fn contains(&self, size: FontSize, key: GlyphKey) -> (r: bool)
        ensures
            r == (glyph_find(self.entries@, size, key) < self.entries@.len()),
    {
        proof {
            lemma_glyph_find(self.entries@, size, key);
        }
        let n = self.entries.len();
        let mut i: usize = 0;
        while i < n
            invariant
                0 <= i <= n,
                n == self.entries@.len(),
                forall|m: int|
                    0 <= m < i ==> !((#[trigger] self.entries@[m]).size == size
                        && self.entries@[m].key == key),
            decreases n - i,
        {
            let e = &self.entries[i];
            if e.size == size && e.key.id == key.id && e.key.offset.0 == key.offset.0 {
                proof {
                    lemma_glyph_find_at(self.entries@, size, key, i as int);
                }
                return true;
            }
            i += 1;
        }
        proof {
            lemma_glyph_find_at(self.entries@, size, key, n as int);
        }
        false
    }

    /// The cached rendering for `(size, key)`, if present.
    pub fn get(&self, size: FontSize, key: GlyphKey) -> (r: Option<&RasterTiles>)
        ensures
            match r {
                Some(t) => glyph_find(self.entries@, size, key) < self.entries@.len() && t
                    == &self.entries@[glyph_find(self.entries@, size, key)].tiles,
                None => glyph_find(self.entries@, size, key) == self.entries@.len(),
            },
    {
        let n = self.entries.len();
        let mut i: usize = 0;
        while i < n
            invariant
                0 <= i <= n,
                n == self.entries@.len(),
                forall|m: int|
                    0 <= m < i ==> !((#[trigger] self.entries@[m]).size == size
                        && self.entries@[m].key == key),
            decreases n - i,
        {
            let e = &self.entries[i];
            if e.size == size && e.key.id == key.id && e.key.offset.0 == key.offset.0 {
                proof {
                    lemma_glyph_find_at(self.entries@, size, key, i as int);
                }
                return Some(&self.entries[i].tiles);
            }
            i += 1;
        }
        proof {
            lemma_glyph_find_at(self.entries@, size, key, n as int);
        }
        None
    }

    /// Stores a rendering for a key not yet present.
    pub fn insert(&mut self, size: FontSize, key: GlyphKey, tiles: RasterTiles)
        requires
            glyph_find(old(self).entries@, size, key) == old(self).entries@.len(),
        ensures
            final(self).entries@ == old(self).entries@.push(GlyphEntry { size, key, tiles }),
    {
        self.entries.push(GlyphEntry { size, key, tiles });
    }
}

/// If no entry before `i` matches and entry `i` matches (or `i` is the
/// length), the find lands on `i`.
pub proof fn lemma_glyph_find_at(s: Seq<GlyphEntry>, size: FontSize, key: GlyphKey, i: int)
    requires
        0 <= i <= s.len(),
        forall|m: int| 0 <= m < i ==> !((#[trigger] s[m]).size == size && s[m].key == key),
        i < s.len() ==> s[i].size == size && s[i].key == key,
    ensures
        glyph_find(s, size, key) == i,
    decreases s.len(),
{
    if s.len() > 0 {
        if i == 0 {
        } else {
            assert(!(s[0].size == size && s[0].key == key));
            assert(forall|m: int|
                0 <= m < i - 1 ==> !((#[trigger] s.drop_first()[m]).size == size
                    && s.drop_first()[m].key == key)) by {
                assert(forall|m: int|
                    0 <= m < s.drop_first().len() ==> #[trigger] s.drop_first()[m] == s[m + 1]);
            }
            lemma_glyph_find_at(s.drop_first(), size, key, i - 1);
        }
    }
}

/// As `lemma_glyph_find_at`, for rounded corners.
pub proof fn lemma_squircle_find_at(s: Seq<SquircleEntry>, key: SquircleKey, i: int)
    requires
        0 <= i <= s.len(),
        forall|m: int| 0 <= m < i ==> !((#[trigger] s[m]).key == key),
        i < s.len() ==> s[i].key == key,
    ensures
        squircle_find(s, key) == i,
    decreases s.len(),
{
    if s.len() > 0 {
        if i == 0 {
        } else {
            assert(!(s[0].key == key));
            assert(forall|m: int| 0 <= m < i - 1 ==> !((#[trigger] s.drop_first()[m]).key == key))
                by {
                assert(forall|m: int|
                    0 <= m < s.drop_first().len() ==> #[trigger] s.drop_first()[m] == s[m + 1]);
            }
            lemma_squircle_find_at(s.drop_first(), key, i - 1);
        }
    }
}

/// Memoized rounded-corner renderings keyed by radius and smoothing.
pub struct SquircleCache {
    pub entries: Vec<SquircleEntry>,
}

impl SquircleCache {
    /// An empty cache.
    pub fn new() -> (r: Self)
        ensures
            r.entries@.len() == 0,
    {
        SquircleCache { entries: Vec::new() }
    }

    /// The cached rendering for `key`, if present.
    pub fn get(&self, key: SquircleKey) -> (r: Option<&RasterTiles>)
        ensures
            match r {
                Some(t) => squircle_find(self.entries@, key) < self.entries@.len() && t
                    == &self.entries@[squircle_find(self.entries@, key)].tiles,
                None => squircle_find(self.entries@, key) == self.entries@.len(),
            },
    {
        let n = self.entries.len();
        let mut i: usize = 0;
        while i < n
            invariant
                0 <= i <= n,
                n == self.entries@.len(),
                forall|m: int| 0 <= m < i ==> !((#[trigger] self.entries@[m]).key == key),
            decreases n - i,
        {
            let e = &self.entries[i];
            if e.key.radius == key.radius && e.key.smoothing.0 == key.smoothing.0 {
                proof {
                    lemma_squircle_find_at(self.entries@, key, i as int);
                }
                return Some(&self.entries[i].tiles);
            }
            i += 1;
        }
        proof {
            lemma_squircle_find_at(self.entries@, key, n as int);
        }
        None
    }

    /// Stores a rendering for a key not yet present.
    pub fn insert(&mut self, key: SquircleKey, tiles: RasterTiles)
        requires
            squircle_find(old(self).entries@, key) == old(self).entries@.len(),
        ensures
            final(self).entries@ == old(self).entries@.push(SquircleEntry { key, tiles }),
    {
        self.entries.push(SquircleEntry { key, tiles });
    }
}

} // verus!
