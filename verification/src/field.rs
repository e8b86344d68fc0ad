//! The Coulomb field model and the per-charge field term.
//!
//! A stationary charge `c` contributes, at a point `p` on the fixed-point
//! grid, the field vector `K * q * (p - c) / r^3` and the potential
//! `K * q / r`, where `r` is the Euclidean distance. Both are evaluated
//! exactly over the integers: magnitudes are combined with truncating
//! division, and the sign is applied afterwards, so negating a charge
//! negates its contribution exactly.

use vstd::prelude::*;
use crate::math::{mag, sqrt_floor, clamp_mag, isqrt, lemma_div_le, lemma_sqrt_floor_bounds};
use crate::helpers::{SCALE, K};
use crate::cellgrid::StationaryCharge;

verus! {

/// Magnitude bound on a charge value.
pub const Q_LIM: i64 = 1_000_000_000;

/// Bound on a stationary charge's grid coordinates.
pub const GRID_LIM: usize = 10_000;

/// Magnitude bound on a movable charge's position components.
pub const POS_LIM: i64 = 2_000_000_000_000;

/// Magnitude bound on velocity components.
pub const VEL_LIM: i64 = 1_000_000_000_000_000;

/// Magnitude bound on acceleration components.
pub const ACC_LIM: i64 = 1_000_000_000_000_000;

/// Bound on one integration time step.
pub const DT_LIM: i64 = 1_000_000_000;

/// Bound on the number of stationary charges.
pub const CHARGES_LIM: usize = 10_000;

/// Magnitude bound on the displacement from a query point to a charge.
pub const DXS_LIM: i64 = 2_100_000_000_000;

/// Magnitude bound on one charge's field term: `K * Q_LIM`.
pub const TERM_LIM: i64 = 8_990_000_000_000_000_000;

/// Bound on the distance value returned by `sqrt_floor` within range.
pub const RS_LIM: i64 = 2_970_000_000_000;

/// Squared collision distance: a movable charge within distance 2 of a
/// stationary charge counts as collided.
pub const COLLIDE_R2: i64 = 4_000_000_000_000;

/// A stationary charge within the coordinate and charge bounds.
pub open spec fn sc_ok(c: StationaryCharge) -> bool {
    c.x <= GRID_LIM && c.y <= GRID_LIM && mag(c.q as int) <= Q_LIM
}

/// A usable stationary-charge list: bounded length, all entries in range.
pub open spec fn charges_ok(cs: Seq<StationaryCharge>) -> bool {
    cs.len() <= CHARGES_LIM && forall|i: int| 0 <= i < cs.len() ==> sc_ok(#[trigger] cs[i])
}

/// Squared distance from the scaled point `(x, y)` to the charge `c`.
pub open spec fn dist_r2(c: StationaryCharge, x: int, y: int) -> int {
    let dx = x - c.x * SCALE;
    let dy = y - c.y * SCALE;
    dx * dx + dy * dy
}

/// Whether the scaled point is within the collision distance of `c`.
pub open spec fn too_close(c: StationaryCharge, x: int, y: int) -> bool {
    dist_r2(c, x, y) < COLLIDE_R2
}

/// Whether the scaled point is within the collision distance of any charge.
pub open spec fn collides(cs: Seq<StationaryCharge>, x: int, y: int) -> bool {
    exists|i: int| 0 <= i < cs.len() && too_close(#[trigger] cs[i], x, y)
}

/// Whether the scaled point coincides exactly with some charge.
pub open spec fn coincides(cs: Seq<StationaryCharge>, x: int, y: int) -> bool {
    exists|i: int| 0 <= i < cs.len() && dist_r2(#[trigger] cs[i], x, y) == 0
}

/// One charge's contribution `(ex, ey, v)` at displacement `(dx, dy)` from
/// the charge, all on the fixed-point grid: with `rs` the scaled distance,
/// the potential magnitude is `K * |q| * SCALE / rs` and each field
/// component's magnitude is that value times `|d| * SCALE / rs^2`.
pub open spec fn field_term(q: int, dx: int, dy: int) -> (int, int, int)
    recommends
        dx * dx + dy * dy >= 1,
{
    let rs = sqrt_floor((dx * dx + dy * dy) as nat) as int;
    let g = (K * mag(q) * SCALE) / rs;
    let exm = (g * mag(dx) * SCALE) / (rs * rs);
    let eym = (g * mag(dy) * SCALE) / (rs * rs);
    (
        if q * dx < 0 {
            -exm
        } else {
            exm
        },
        if q * dy < 0 {
            -eym
        } else {
            eym
        },
        if q < 0 {
            -g
        } else {
            g
        },
    )
}

/// The contribution of the charge `c` at the scaled point `(x, y)`.
pub open spec fn term_at(c: StationaryCharge, x: int, y: int) -> (int, int, int) {
    field_term(c.q as int, x - c.x * SCALE, y - c.y * SCALE)
}

/// Net field and potential at the scaled point: the sum of all
/// contributions, exactly.
pub open spec fn field_sum(cs: Seq<StationaryCharge>, x: int, y: int) -> (int, int, int)
    decreases cs.len(),
{
    if cs.len() == 0 {
        (0, 0, 0)
    } else {
        let p = field_sum(cs.drop_last(), x, y);
        let t = term_at(cs.last(), x, y);
        (p.0 + t.0, p.1 + t.1, p.2 + t.2)
    }
}

/// The background sample stored for grid cell `(x, y)`: the clamped net
/// field and potential, or the saturation sentinel `i64::MAX` in every
/// component when the cell coincides with a stationary charge. Unlike the
/// dynamics path, a merely *near* charge is not special here: no freezing
/// semantics apply to background sampling.
pub open spec fn sample_for_display(cs: Seq<StationaryCharge>, x: int, y: int) -> (int, int, int) {
    if coincides(cs, x * SCALE, y * SCALE) {
        (i64::MAX as int, i64::MAX as int, i64::MAX as int)
    } else {
        let s = field_sum(cs, x * SCALE, y * SCALE);
        (
            clamp_mag(s.0, i64::MAX as int),
            clamp_mag(s.1, i64::MAX as int),
            clamp_mag(s.2, i64::MAX as int),
        )
    }
}

/// One charge's exact contribution at displacement `(dx, dy)`.
///
/// Every division is performed on magnitudes (`u128`), so the executable
/// arithmetic coincides with the Euclidean division of the specification.
pub(crate) fn field_term_exec(q: i64, dx: i64, dy: i64) -> (r: (i64, i64, i64))
    requires
        mag(q as int) <= Q_LIM,
        mag(dx as int) <= DXS_LIM,
        mag(dy as int) <= DXS_LIM,
        dx * dx + dy * dy >= SCALE * SCALE,
    ensures
        (r.0 as int, r.1 as int, r.2 as int) == field_term(q as int, dx as int, dy as int),
        mag(r.0 as int) <= TERM_LIM,
        mag(r.1 as int) <= TERM_LIM,
        mag(r.2 as int) <= TERM_LIM,
{
    let qa: u64 = if q < 0 {
        (-q) as u64
    } else {
        q as u64
    };
    let dxa: u64 = if dx < 0 {
        (-dx) as u64
    } else {
        dx as u64
    };
    let dya: u64 = if dy < 0 {
        (-dy) as u64
    } else {
        dy as u64
    };
    proof {
        vstd::arithmetic::mul::lemma_mul_upper_bound(dxa as int, DXS_LIM as int, dxa as int, DXS_LIM as int);
        vstd::arithmetic::mul::lemma_mul_upper_bound(dya as int, DXS_LIM as int, dya as int, DXS_LIM as int);
    }
    let r2: u128 = (dxa as u128) * (dxa as u128) + (dya as u128) * (dya as u128);
    proof {
        assert(r2 == dx * dx + dy * dy) by (nonlinear_arith)
            requires
                dxa == mag(dx as int),
                dya == mag(dy as int),
                r2 == dxa * dxa + dya * dya,
        ;
    }
    let rs: u128 = isqrt(r2);
    let ghost rsi: int = rs as int;
    proof {
        assert(qa <= Q_LIM && dxa <= DXS_LIM && dya <= DXS_LIM);
        assert(rs >= SCALE) by (nonlinear_arith)
            requires
                rs == rsi,
                r2 >= SCALE * SCALE,
                r2 < (rsi + 1) * (rsi + 1),
                rsi >= 0,
                SCALE > 0,
        ;
        assert(rs <= RS_LIM) by (nonlinear_arith)
            requires
                rs == rsi,
                rsi * rsi <= r2,
                r2 <= 2 * (DXS_LIM as int) * (DXS_LIM as int),
                rsi >= 0,
        ;
        assert(rsi == sqrt_floor((dx * dx + dy * dy) as nat) as int);
    }
    let num1: u128 = (K as u128) * (qa as u128) * (SCALE as u128);
    let g: u128 = num1 / rs;
    proof {
        assert(num1 <= (TERM_LIM as int) * (SCALE as int));
        assert((TERM_LIM as int) * (SCALE as int) <= (TERM_LIM as int) * rsi) by (nonlinear_arith)
            requires
                SCALE <= rsi,
                TERM_LIM > 0,
        ;
        lemma_div_le(num1 as int, TERM_LIM as int, rsi);
    }
    proof {
        vstd::arithmetic::mul::lemma_mul_upper_bound(rsi, RS_LIM as int, rsi, RS_LIM as int);
    }
    let rs2: u128 = rs * rs;
    proof {
        assert(rs2 >= 1) by (nonlinear_arith)
            requires
                rs2 == rsi * rsi,
                rsi >= 1,
        ;
        // each displacement magnitude is at most the distance
        assert(dxa <= rs && dya <= rs) by (nonlinear_arith)
            requires
                dxa * dxa <= r2,
                dya * dya <= r2,
                r2 < (rsi + 1) * (rsi + 1),
                rsi >= 0,
                dxa >= 0,
                dya >= 0,
                rs == rsi,
        ;
        vstd::arithmetic::mul::lemma_mul_upper_bound(g as int, TERM_LIM as int, dxa as int, DXS_LIM as int);
        vstd::arithmetic::mul::lemma_mul_upper_bound(g as int, TERM_LIM as int, dya as int, DXS_LIM as int);
    }
    let numx: u128 = g * (dxa as u128) * (SCALE as u128);
    let numy: u128 = g * (dya as u128) * (SCALE as u128);
    let exm: u128 = numx / rs2;
    let eym: u128 = numy / rs2;
    proof {
        assert(numx <= g * rs2 && numy <= g * rs2) by (nonlinear_arith)
            requires
                numx == g * dxa * SCALE,
                numy == g * dya * SCALE,
                dxa <= rsi,
                dya <= rsi,
                SCALE <= rsi,
                rs2 == rsi * rsi,
                g >= 0,
        ;
        lemma_div_le(numx as int, g as int, rs2 as int);
        lemma_div_le(numy as int, g as int, rs2 as int);
        vstd::arithmetic::div_mod::lemma_div_pos_is_pos(numx as int, rs2 as int);
        vstd::arithmetic::div_mod::lemma_div_pos_is_pos(numy as int, rs2 as int);
    }
    proof {
        assert(mag((q as int) * (dx as int)) <= (Q_LIM as int) * (DXS_LIM as int) && mag(
            (q as int) * (dy as int),
        ) <= (Q_LIM as int) * (DXS_LIM as int)) by (nonlinear_arith)
            requires
                mag(q as int) <= Q_LIM,
                mag(dx as int) <= DXS_LIM,
                mag(dy as int) <= DXS_LIM,
        ;
    }
    let ex: i64 = if (q as i128) * (dx as i128) < 0 {
        -(exm as i64)
    } else {
        exm as i64
    };
    let ey: i64 = if (q as i128) * (dy as i128) < 0 {
        -(eym as i64)
    } else {
        eym as i64
    };
    let v: i64 = if q < 0 {
        -(g as i64)
    } else {
        g as i64
    };
    (ex, ey, v)
}

} // verus!
