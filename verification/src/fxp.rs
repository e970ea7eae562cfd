//! Fixed-point value with a 6-bit fraction, the unit of subpixel positions
//! and cache-key quantization: one pixel is 64 units.

use vstd::prelude::*;

verus! {

/// A 26.6 fixed-point value: the `i32` holds the position times 64.
#[allow(non_camel_case_types)]
#[derive(Debug, Clone, Copy, PartialEq, Eq, Structural, Hash)]
pub struct fxp6(pub i32);

impl fxp6 {
    /// Wraps a raw 26.6 value.
    pub fn new(x: i32) -> (r: Self)
        ensures
            r.0 == x,
    {
        fxp6(x)
    }

    /// The whole-pixel part, rounding toward negative infinity.
    pub fn i32(self) -> (r: i32)
        ensures
            r as int == self.0 as int / 64,
    {
        let v = self.0;
        let r = v >> 6u32;
        proof {
            assert(r == v as int / 64) by (bit_vector)
                requires
                    r == v >> 6u32,
            ;
        }
        r
    }

    /// The value with its fractional bits cleared: `trunc` plus `fract`
    /// gives back the original value.
    pub fn trunc(self) -> (r: Self)
        ensures
            r.0 as int == 64 * (self.0 as int / 64),
            r.0 as int + self.spec_fract() as int == self.0 as int,
    {
        let x = self.0;
        let v = x & !63i32;
        proof {
            assert(v == 64 * (x as int / 64) && (v as int) + (x & 63i32) == x as int)
                by (bit_vector)
                requires
                    v == x & !63i32,
            ;
        }
        fxp6(v)
    }

    /// The fractional bits alone, in the range `0 .. 64`.
    pub fn fract(self) -> (r: Self)
        ensures
            r.0 == self.spec_fract(),
            0 <= r.0 < 64,
    {
        let x = self.0;
        let v = x & 63i32;
        proof {
            assert(0 <= v < 64) by (bit_vector)
                requires
                    v == x & 63i32,
            ;
        }
        fxp6(v)
    }

    /// The fractional bits of the raw value.
    pub open spec fn spec_fract(self) -> i32 {
        self.0 & 63i32
    }
}

} // verus!
