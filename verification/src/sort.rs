//! Stable insertion sorts for the rasterizer's sweep: increments and
//! tile-row winding deltas are ordered row-major by `(tile row, tile
//! column)`. Stability makes the sorted sequence, and with it the sweep's
//! output, a function of the input sequence alone.

use vstd::prelude::*;
use crate::raster::{Increment, TileIncrement, inc_sort_key, tinc_sort_key};
use crate::num::floor_div;

verus! {

/// Where `v` lands when inserted from the right into `s`: after every
/// element whose key is at most `v`'s.
pub open spec fn insert_inc(s: Seq<Increment>, v: Increment) -> Seq<Increment>
    decreases s.len(),
{
    if s.len() == 0 {
        seq![v]
    } else if inc_sort_key(s.last()) <= inc_sort_key(v) {
        s.push(v)
    } else {
        insert_inc(s.drop_last(), v).push(s.last())
    }
}

/// The stable insertion sort of `s` by tile key.
pub open spec fn sort_incs(s: Seq<Increment>) -> Seq<Increment>
    decreases s.len(),
{
    if s.len() == 0 {
        Seq::empty()
    } else {
        insert_inc(sort_incs(s.drop_last()), s.last())
    }
}

/// As `insert_inc`, for tile-row winding deltas.
pub open spec fn insert_tinc(s: Seq<TileIncrement>, v: TileIncrement) -> Seq<TileIncrement>
    decreases s.len(),
{
    if s.len() == 0 {
        seq![v]
    } else if tinc_sort_key(s.last()) <= tinc_sort_key(v) {
        s.push(v)
    } else {
        insert_tinc(s.drop_last(), v).push(s.last())
    }
}

/// The stable insertion sort of tile-row winding deltas.
pub open spec fn sort_tincs(s: Seq<TileIncrement>) -> Seq<TileIncrement>
    decreases s.len(),
{
    if s.len() == 0 {
        Seq::empty()
    } else {
        insert_tinc(sort_tincs(s.drop_last()), s.last())
    }
}

/// Splitting an insertion at the first from-the-right element with key at
/// most the inserted one's reproduces `insert_inc`.
proof fn lemma_insert_inc_at(p: Seq<Increment>, v: Increment, j: int)
    requires
        0 <= j <= p.len(),
        forall|k: int| j <= k < p.len() ==> inc_sort_key(#[trigger] p[k]) > inc_sort_key(v),
        j > 0 ==> inc_sort_key(p[j - 1]) <= inc_sort_key(v),
    ensures
        insert_inc(p, v) == p.subrange(0, j).push(v) + p.subrange(j, p.len() as int),
    decreases p.len(),
{
    if j == p.len() {
        assert(insert_inc(p, v) =~= p.subrange(0, j).push(v) + p.subrange(j, p.len() as int));
    } else {
        assert(inc_sort_key(p.last()) > inc_sort_key(v));
        lemma_insert_inc_at(p.drop_last(), v, j);
        assert(p.drop_last().subrange(0, j) =~= p.subrange(0, j));
        assert(p.drop_last().subrange(j, p.drop_last().len() as int) =~= p.subrange(
            j,
            p.len() - 1,
        ));
        assert(insert_inc(p, v) =~= p.subrange(0, j).push(v) + p.subrange(j, p.len() as int));
    }
}

/// As `lemma_insert_inc_at`, for tile-row winding deltas.
proof fn lemma_insert_tinc_at(p: Seq<TileIncrement>, v: TileIncrement, j: int)
    requires
        0 <= j <= p.len(),
        forall|k: int| j <= k < p.len() ==> tinc_sort_key(#[trigger] p[k]) > tinc_sort_key(v),
        j > 0 ==> tinc_sort_key(p[j - 1]) <= tinc_sort_key(v),
    ensures
        insert_tinc(p, v) == p.subrange(0, j).push(v) + p.subrange(j, p.len() as int),
    decreases p.len(),
{
    if j == p.len() {
        assert(insert_tinc(p, v) =~= p.subrange(0, j).push(v) + p.subrange(j, p.len() as int));
    } else {
        assert(tinc_sort_key(p.last()) > tinc_sort_key(v));
        lemma_insert_tinc_at(p.drop_last(), v, j);
        assert(p.drop_last().subrange(0, j) =~= p.subrange(0, j));
        assert(p.drop_last().subrange(j, p.drop_last().len() as int) =~= p.subrange(
            j,
            p.len() - 1,
        ));
        assert(insert_tinc(p, v) =~= p.subrange(0, j).push(v) + p.subrange(j, p.len() as int));
    }
}

/// The comparable key of an increment, computed in executable code; equals
/// `inc_sort_key`.
fn inc_key(v: &Increment) -> (r: i64)
    requires
        crate::raster::valid_increment(*v),
    ensures
        r == inc_sort_key(*v),
{
    let tx = floor_div(v.x as i64, 8);
    let ty = floor_div(v.y as i64, 8);
    (ty + 0x1_0000) * 0x10_0000 + (tx + 0x1_0000)
}

/// The comparable key of a tile-row winding delta, computed in executable
/// code; equals `tinc_sort_key`.
fn tinc_key(v: &TileIncrement) -> (r: i64)
    requires
        crate::raster::valid_tile_increment(*v),
    ensures
        r == tinc_sort_key(*v),
{
    (v.tile_y as i64 + 0x1_0000) * 0x10_0000 + (v.tile_x as i64 + 0x1_0000)
}

/// Sorts the increments stably by `(tile row, tile column)`.
pub fn sort_increments(v: &mut Vec<Increment>)
    requires
        forall|i: int|
            0 <= i < old(v)@.len() ==> crate::raster::valid_increment(#[trigger] old(v)@[i]),
    ensures
        final(v)@ == sort_incs(old(v)@),
        forall|i: int|
            0 <= i < final(v)@.len() ==> crate::raster::valid_increment(#[trigger] final(v)@[i]),
{
    let n = v.len();
    if n == 0 {
        proof {
            assert(sort_incs(old(v)@) =~= old(v)@);
        }
        return ;
    }
    proof {
        let s1 = old(v)@.subrange(0, 1);
        assert(s1.drop_last() =~= Seq::<Increment>::empty());
        assert(sort_incs(Seq::<Increment>::empty()) =~= Seq::<Increment>::empty());
        assert(insert_inc(Seq::<Increment>::empty(), s1.last()) =~= seq![s1.last()]);
        assert(sort_incs(s1) =~= seq![s1.last()]);
        assert(seq![s1.last()] =~= s1);
        assert(v@.subrange(0, 1) =~= old(v)@.subrange(0, 1));
        assert(v@.subrange(1, n as int) =~= old(v)@.subrange(1, n as int));
    }
    let mut i: usize = 1;
    while i < n
        invariant
            1 <= i <= n,
            n == v@.len(),
            n == old(v)@.len(),
            v@.subrange(i as int, n as int) == old(v)@.subrange(i as int, n as int),
            v@.subrange(0, i as int) == sort_incs(old(v)@.subrange(0, i as int)),
            forall|k: int| 0 <= k < n ==> crate::raster::valid_increment(#[trigger] v@[k]),
        decreases n - i,
    {
        let ghost sorted_prefix = v@.subrange(0, i as int);
        proof {
            assert(v@.subrange(i as int, n as int)[0] == v@[i as int]);
            assert(old(v)@.subrange(i as int, n as int)[0] == old(v)@[i as int]);
            assert(v@.subrange(i as int + 1, n as int) =~= v@.subrange(i as int, n as int)
                .subrange(1, (n - i) as int));
            assert(old(v)@.subrange(i as int + 1, n as int) =~= old(v)@.subrange(
                i as int,
                n as int,
            ).subrange(1, (n - i) as int));
            assert(sorted_prefix.subrange(0, i as int) =~= sorted_prefix);
            assert(v@.subrange(i as int + 1, i as int + 1) =~= sorted_prefix.subrange(
                i as int,
                i as int,
            ));
        }
        let x = v[i];
        let key_x = inc_key(&x);
        let mut j: usize = i;
        while j > 0 && inc_key(&v[j - 1]) > key_x
            invariant
                0 <= j <= i < n,
                n == v@.len(),
                key_x == inc_sort_key(x),
                x == old(v)@[i as int],
                forall|k: int| 0 <= k < n ==> crate::raster::valid_increment(#[trigger] v@[k]),
                crate::raster::valid_increment(x),
                sorted_prefix.len() == i,
                v@.subrange(0, j as int) == sorted_prefix.subrange(0, j as int),
                v@.subrange(j as int + 1, i as int + 1) == sorted_prefix.subrange(
                    j as int,
                    i as int,
                ),
                v@.subrange(i as int + 1, n as int) == old(v)@.subrange(i as int + 1, n as int),
                forall|k: int|
                    j <= k < i ==> inc_sort_key(#[trigger] sorted_prefix[k]) > inc_sort_key(x),
            decreases j,
        {
            let moved = v[j - 1];
            proof {
                assert(v@.subrange(0, j as int)[j as int - 1] == v@[j as int - 1]);
                assert(sorted_prefix.subrange(0, j as int)[j as int - 1] == sorted_prefix[j as int
                    - 1]);
                assert(moved == sorted_prefix[j as int - 1]);
            }
            let ghost before = v@;
            v.set(j, moved);
            proof {
                assert(v@.subrange(0, j as int - 1) =~= sorted_prefix.subrange(0, j as int - 1));
                assert forall|m: int| 0 <= m < i - j + 1 implies #[trigger] (v@.subrange(
                    j as int,
                    i as int + 1,
                )[m]) == sorted_prefix.subrange(j as int - 1, i as int)[m] by {
                    if m == 0 {
                    } else {
                        assert(before.subrange(j as int + 1, i as int + 1)[m - 1]
                            == sorted_prefix.subrange(j as int, i as int)[m - 1]);
                    }
                }
                assert(v@.subrange(j as int, i as int + 1) =~= sorted_prefix.subrange(
                    j as int - 1,
                    i as int,
                ));
                assert(v@.subrange(i as int + 1, n as int) =~= before.subrange(
                    i as int + 1,
                    n as int,
                ));
            }
            j = j - 1;
        }
        proof {
            if j > 0 {
                assert(v@.subrange(0, j as int)[j as int - 1] == v@[j as int - 1]);
                assert(sorted_prefix.subrange(0, j as int)[j as int - 1] == sorted_prefix[j as int
                    - 1]);
            }
        }
        let ghost before = v@;
        v.set(j, x);
        proof {
            lemma_insert_inc_at(sorted_prefix, x, j as int);
            assert forall|m: int| 0 <= m < i + 1 implies #[trigger] (v@.subrange(0, i as int + 1)[m]) == (
            sorted_prefix.subrange(0, j as int).push(x) + sorted_prefix.subrange(
                j as int,
                i as int,
            ))[m] by {
                if m < j {
                    assert(before.subrange(0, j as int)[m] == sorted_prefix.subrange(
                        0,
                        j as int,
                    )[m]);
                } else if m > j {
                    assert(before.subrange(j as int + 1, i as int + 1)[m - j - 1]
                        == sorted_prefix.subrange(j as int, i as int)[m - j - 1]);
                }
            }
            assert(v@.subrange(0, i as int + 1) =~= sorted_prefix.subrange(0, j as int).push(x)
                + sorted_prefix.subrange(j as int, i as int));
            assert(old(v)@.subrange(0, i as int + 1).drop_last() =~= old(v)@.subrange(0, i as int));
            assert(old(v)@.subrange(0, i as int + 1).last() == x);
            assert(v@.subrange(0, i as int + 1) == sort_incs(old(v)@.subrange(0, i as int + 1)));
            assert(v@.subrange(i as int + 1, n as int) =~= before.subrange(i as int + 1, n as int));
        }
        i = i + 1;
    }
    proof {
        assert(v@.subrange(0, n as int) =~= v@);
        assert(old(v)@.subrange(0, n as int) =~= old(v)@);
    }
}

/// Sorts the tile-row winding deltas stably by `(tile row, tile column)`.
pub fn sort_tile_increments(v: &mut Vec<TileIncrement>)
    requires
        forall|i: int|
            0 <= i < old(v)@.len() ==> crate::raster::valid_tile_increment(#[trigger] old(v)@[i]),
    ensures
        final(v)@ == sort_tincs(old(v)@),
        forall|i: int|
            0 <= i < final(v)@.len() ==> crate::raster::valid_tile_increment(
                #[trigger] final(v)@[i],
            ),
{
    let n = v.len();
    if n == 0 {
        proof {
            assert(sort_tincs(old(v)@) =~= old(v)@);
        }
        return ;
    }
    proof {
        let s1 = old(v)@.subrange(0, 1);
        assert(s1.drop_last() =~= Seq::<TileIncrement>::empty());
        assert(sort_tincs(Seq::<TileIncrement>::empty()) =~= Seq::<TileIncrement>::empty());
        assert(insert_tinc(Seq::<TileIncrement>::empty(), s1.last()) =~= seq![s1.last()]);
        assert(sort_tincs(s1) =~= seq![s1.last()]);
        assert(seq![s1.last()] =~= s1);
        assert(v@.subrange(0, 1) =~= old(v)@.subrange(0, 1));
        assert(v@.subrange(1, n as int) =~= old(v)@.subrange(1, n as int));
    }
    let mut i: usize = 1;
    while i < n
        invariant
            1 <= i <= n,
            n == v@.len(),
            n == old(v)@.len(),
            v@.subrange(i as int, n as int) == old(v)@.subrange(i as int, n as int),
            v@.subrange(0, i as int) == sort_tincs(old(v)@.subrange(0, i as int)),
            forall|k: int| 0 <= k < n ==> crate::raster::valid_tile_increment(#[trigger] v@[k]),
        decreases n - i,
    {
        let ghost sorted_prefix = v@.subrange(0, i as int);
        proof {
            assert(v@.subrange(i as int, n as int)[0] == v@[i as int]);
            assert(old(v)@.subrange(i as int, n as int)[0] == old(v)@[i as int]);
            assert(v@.subrange(i as int + 1, n as int) =~= v@.subrange(i as int, n as int)
                .subrange(1, (n - i) as int));
            assert(old(v)@.subrange(i as int + 1, n as int) =~= old(v)@.subrange(
                i as int,
                n as int,
            ).subrange(1, (n - i) as int));
            assert(sorted_prefix.subrange(0, i as int) =~= sorted_prefix);
            assert(v@.subrange(i as int + 1, i as int + 1) =~= sorted_prefix.subrange(
                i as int,
                i as int,
            ));
        }
        let x = v[i];
        let key_x = tinc_key(&x);
        let mut j: usize = i;
        while j > 0 && tinc_key(&v[j - 1]) > key_x
            invariant
                0 <= j <= i < n,
                n == v@.len(),
                key_x == tinc_sort_key(x),
                x == old(v)@[i as int],
                forall|k: int| 0 <= k < n ==> crate::raster::valid_tile_increment(#[trigger] v@[k]),
                crate::raster::valid_tile_increment(x),
                sorted_prefix.len() == i,
                v@.subrange(0, j as int) == sorted_prefix.subrange(0, j as int),
                v@.subrange(j as int + 1, i as int + 1) == sorted_prefix.subrange(
                    j as int,
                    i as int,
                ),
                v@.subrange(i as int + 1, n as int) == old(v)@.subrange(i as int + 1, n as int),
                forall|k: int|
                    j <= k < i ==> tinc_sort_key(#[trigger] sorted_prefix[k]) > tinc_sort_key(x),
            decreases j,
        {
            let moved = v[j - 1];
            proof {
                assert(v@.subrange(0, j as int)[j as int - 1] == v@[j as int - 1]);
                assert(sorted_prefix.subrange(0, j as int)[j as int - 1] == sorted_prefix[j as int
                    - 1]);
                assert(moved == sorted_prefix[j as int - 1]);
            }
            let ghost before = v@;
            v.set(j, moved);
            proof {
                assert(v@.subrange(0, j as int - 1) =~= sorted_prefix.subrange(0, j as int - 1));
                assert forall|m: int| 0 <= m < i - j + 1 implies #[trigger] (v@.subrange(
                    j as int,
                    i as int + 1,
                )[m]) == sorted_prefix.subrange(j as int - 1, i as int)[m] by {
                    if m == 0 {
                    } else {
                        assert(before.subrange(j as int + 1, i as int + 1)[m - 1]
                            == sorted_prefix.subrange(j as int, i as int)[m - 1]);
                    }
                }
                assert(v@.subrange(j as int, i as int + 1) =~= sorted_prefix.subrange(
                    j as int - 1,
                    i as int,
                ));
                assert(v@.subrange(i as int + 1, n as int) =~= before.subrange(
                    i as int + 1,
                    n as int,
                ));
            }
            j = j - 1;
        }
        proof {
            if j > 0 {
                assert(v@.subrange(0, j as int)[j as int - 1] == v@[j as int - 1]);
                assert(sorted_prefix.subrange(0, j as int)[j as int - 1] == sorted_prefix[j as int
                    - 1]);
            }
        }
        let ghost before = v@;
        v.set(j, x);
        proof {
            lemma_insert_tinc_at(sorted_prefix, x, j as int);
            assert forall|m: int| 0 <= m < i + 1 implies #[trigger] (v@.subrange(0, i as int + 1)[m]) == (
            sorted_prefix.subrange(0, j as int).push(x) + sorted_prefix.subrange(
                j as int,
                i as int,
            ))[m] by {
                if m < j {
                    assert(before.subrange(0, j as int)[m] == sorted_prefix.subrange(
                        0,
                        j as int,
                    )[m]);
                } else if m > j {
                    assert(before.subrange(j as int + 1, i as int + 1)[m - j - 1]
                        == sorted_prefix.subrange(j as int, i as int)[m - j - 1]);
                }
            }
            assert(v@.subrange(0, i as int + 1) =~= sorted_prefix.subrange(0, j as int).push(x)
                + sorted_prefix.subrange(j as int, i as int));
            assert(old(v)@.subrange(0, i as int + 1).drop_last() =~= old(v)@.subrange(0, i as int));
            assert(old(v)@.subrange(0, i as int + 1).last() == x);
            assert(v@.subrange(0, i as int + 1) == sort_tincs(old(v)@.subrange(0, i as int + 1)));
            assert(v@.subrange(i as int + 1, n as int) =~= before.subrange(i as int + 1, n as int));
        }
        i = i + 1;
    }
    proof {
        assert(v@.subrange(0, n as int) =~= v@);
        assert(old(v)@.subrange(0, n as int) =~= old(v)@);
    }
}

} // verus!
