//! Plane-vector utility and small shared helpers.
//!
//! Every continuous quantity in this crate is fixed-point: a stored `i64`
//! value `v` stands for the real number `v / SCALE`.

use vstd::prelude::*;
use crate::math::{mag, sqrt_floor, tdiv, isqrt, tdiv_i128};

verus! {

/// Fixed-point resolution: one stored unit is `1 / SCALE` of a real unit.
pub const SCALE: i64 = 1_000_000;

/// Coulomb's constant, in whole units (8.99e9).
pub const K: i64 = 8_990_000_000;

/// Magnitude bound on vector components accepted by `length` and `normalize`.
pub const VEC_LIM: i64 = 2_000_000_000_000_000_000;

/// A plane vector or point.
#[derive(Clone, Copy, PartialEq, Eq, Structural, Debug)]
pub struct XY<T> {
    pub x: T,
    pub y: T,
}

impl XY<i64> {
    /// Euclidean length, rounded down to the fixed-point grid.
    pub fn length(&self) -> (r: i64)
        requires
            mag(self.x as int) <= VEC_LIM,
            mag(self.y as int) <= VEC_LIM,
        ensures
            r == sqrt_floor((self.x * self.x + self.y * self.y) as nat),
    {
        let xa: u64 = if self.x < 0 {
            (-self.x) as u64
        } else {
            self.x as u64
        };
        let ya: u64 = if self.y < 0 {
            (-self.y) as u64
        } else {
            self.y as u64
        };
        proof {
            vstd::arithmetic::mul::lemma_mul_upper_bound(xa as int, VEC_LIM as int, xa as int, VEC_LIM as int);
            vstd::arithmetic::mul::lemma_mul_upper_bound(ya as int, VEC_LIM as int, ya as int, VEC_LIM as int);
        }
        let r2: u128 = (xa as u128) * (xa as u128) + (ya as u128) * (ya as u128);
        assert(r2 == self.x * self.x + self.y * self.y) by (nonlinear_arith)
            requires
                xa == mag(self.x as int),
                ya == mag(self.y as int),
                r2 == xa * xa + ya * ya,
        ;
        let r = isqrt(r2);
        proof {
            assert(r <= 3_000_000_000_000_000_000u128) by (nonlinear_arith)
                requires
                    r * r <= r2,
                    r2 <= 2 * (VEC_LIM as int) * (VEC_LIM as int),
                    r >= 0,
            ;
        }
        r as i64
    }

    /// Direction of the vector as a unit vector on the fixed-point grid:
    /// each component is scaled by `SCALE` and divided by the length,
    /// truncating toward zero.
    pub fn normalize(&self) -> (r: Self)
        requires
            mag(self.x as int) <= VEC_LIM,
            mag(self.y as int) <= VEC_LIM,
            self.x != 0 || self.y != 0,
        ensures
            r.x == tdiv(self.x * SCALE, sqrt_floor((self.x * self.x + self.y * self.y) as nat) as int),
            r.y == tdiv(self.y * SCALE, sqrt_floor((self.x * self.x + self.y * self.y) as nat) as int),
    {
        let ghost r2: int = self.x * self.x + self.y * self.y;
        proof {
            assert(r2 >= 1 && mag(self.x as int) * mag(self.x as int) <= r2 && mag(self.y as int)
                * mag(self.y as int) <= r2) by (nonlinear_arith)
                requires
                    self.x != 0 || self.y != 0,
                    r2 == self.x * self.x + self.y * self.y,
            ;
        }
        let len = self.length();
        proof {
            crate::math::lemma_sqrt_floor_bounds(r2 as nat);
            assert(len >= 1) by (nonlinear_arith)
                requires
                    r2 >= 1,
                    r2 < (len + 1) * (len + 1),
                    len >= 0,
            ;
            // each component's magnitude is at most the length
            assert(mag(self.x as int) <= len && mag(self.y as int) <= len) by (nonlinear_arith)
                requires
                    mag(self.x as int) * mag(self.x as int) <= r2,
                    mag(self.y as int) * mag(self.y as int) <= r2,
                    r2 < (len + 1) * (len + 1),
                    len >= 0,
                    mag(self.x as int) >= 0,
                    mag(self.y as int) >= 0,
            ;
            assert(mag(self.x * SCALE) <= SCALE * len && mag(self.y * SCALE) <= SCALE * len)
                by (nonlinear_arith)
                requires
                    mag(self.x as int) <= len,
                    mag(self.y as int) <= len,
                    SCALE > 0,
            ;
            crate::math::lemma_tdiv_mag(self.x * SCALE, len as int, SCALE as int);
            crate::math::lemma_tdiv_mag(self.y * SCALE, len as int, SCALE as int);
        }
        let qx = tdiv_i128((self.x as i128) * (SCALE as i128), len as i128);
        let qy = tdiv_i128((self.y as i128) * (SCALE as i128), len as i128);
        XY { x: qx as i64, y: qy as i64 }
    }
}

/// Whether the point `(x, y)` lies strictly inside the given bounds.
pub fn in_bounds(x: i64, y: i64, min_x: i64, max_x: i64, min_y: i64, max_y: i64) -> (r: bool)
    ensures
        r == (min_x < x && x < max_x && min_y < y && y < max_y),
{
    x > min_x && x < max_x && y > min_y && y < max_y
}

} // verus!
