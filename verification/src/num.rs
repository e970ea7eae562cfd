//! Small arithmetic helpers shared by the rasterizer: floor division on
//! signed fixed-point values and saturating accumulation.

use vstd::prelude::*;
use vstd::arithmetic::div_mod::{
    lemma_div_nonincreasing, lemma_div_pos_is_pos, lemma_fundamental_div_mod,
    lemma_fundamental_div_mod_converse_div, lemma_multiply_divide_lt,
};

verus! {

/// Bound on the magnitude of values the floor-division helper accepts.
pub const FDIV_LIMIT: i64 = 0x100_0000_0000_0000;

/// Bound at which saturating accumulation clamps.
pub const SAT_LIMIT: i64 = 0x4000_0000_0000;

/// Floor division of `a` by a positive divisor `d`; equals division on `int`.
pub fn floor_div(a: i64, d: i64) -> (r: i64)
    requires
        0 < d <= FDIV_LIMIT,
        -FDIV_LIMIT <= a <= FDIV_LIMIT,
    ensures
        r as int == a as int / d as int,
        -FDIV_LIMIT <= r <= FDIV_LIMIT,
{
    if a >= 0 {
        proof {
            lemma_div_pos_is_pos(a as int, d as int);
            lemma_div_nonincreasing(a as int, d as int);
        }
        let q = a.checked_div_euclid(d);
        assert(q.is_some());
        q.unwrap()
    } else {
        // Division of the negated value rounds the other way; shifting the
        // numerator by `d - 1` makes the two agree.
        let n: i64 = -a + (d - 1);
        proof {
            lemma_div_pos_is_pos(n as int, d as int);
            lemma_div_nonincreasing(n as int, d as int);
        }
        let m0 = n.checked_div_euclid(d);
        assert(m0.is_some());
        let m: i64 = m0.unwrap();
        proof {
            lemma_fundamental_div_mod(n as int, d as int);
            let s = n as int % d as int;
            assert(a as int == (-m as int) * d as int + (d - 1 - s)) by (nonlinear_arith)
                requires
                    n as int == d as int * (m as int) + s,
                    n as int == -(a as int) + d - 1,
            ;
            lemma_fundamental_div_mod_converse_div(a as int, d as int, -m as int, d - 1 - s);
            assert(n < d * (FDIV_LIMIT + 1)) by (nonlinear_arith)
                requires
                    1 <= d,
                    n as int <= FDIV_LIMIT + d - 1,
            ;
            lemma_multiply_divide_lt(n as int, d as int, FDIV_LIMIT + 1);
        }
        -m
    }
}

/// Divides, rounding up: how many groups of `y` cover `x`.
pub fn div_align_up(x: u32, y: u32) -> (r: u32)
    requires
        y > 0,
    ensures
        r == (x + y - 1) / (y as int),
{
    proof {
        assert(x + y - 1 < (y as int) * (x + 1)) by (nonlinear_arith)
            requires
                y >= 1,
                x >= 0,
        ;
        lemma_multiply_divide_lt(x + y - 1, y as int, x + 1);
        lemma_div_pos_is_pos(x + y - 1, y as int);
    }
    let q: u64 = (x as u64 + y as u64 - 1) / (y as u64);
    q as u32
}

/// What saturating accumulation yields: the sum, clamped to `SAT_LIMIT`.
pub open spec fn spec_sat(v: int) -> int {
    if v > SAT_LIMIT {
        SAT_LIMIT as int
    } else if v < -SAT_LIMIT {
        -SAT_LIMIT as int
    } else {
        v
    }
}

/// Adds two bounded values, clamping the result to `SAT_LIMIT`.
pub fn sat_add(a: i64, b: i64) -> (r: i64)
    requires
        -2 * SAT_LIMIT <= a <= 2 * SAT_LIMIT,
        -2 * SAT_LIMIT <= b <= 2 * SAT_LIMIT,
    ensures
        r as int == spec_sat(a + b),
        -SAT_LIMIT <= r <= SAT_LIMIT,
{
    let s: i64 = a + b;
    if s > SAT_LIMIT {
        SAT_LIMIT
    } else if s < -SAT_LIMIT {
        -SAT_LIMIT
    } else {
        s
    }
}

} // verus!
