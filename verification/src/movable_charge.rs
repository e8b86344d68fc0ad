//! Movable charges and the explicit time integrator.
//!
//! A movable charge carries continuous fixed-point position, velocity and
//! acceleration. One integration step advances position and velocity with
//! the acceleration computed on the *previous* step, then recomputes the
//! acceleration from the freshly evaluated field — the semi-implicit
//! ordering whose one-step lag is a fixed design choice, since exported
//! trajectories depend on exact reproducibility of the scheme.

use vstd::prelude::*;
use crate::math::{mag, tdiv, clamp_mag, tdiv_i128, clamp_to_i64, lemma_mag_mul_bound};
use crate::helpers::{SCALE, XY};
use crate::cellgrid::StationaryCharge;
use crate::field::{
    Q_LIM, POS_LIM, VEL_LIM, ACC_LIM, DT_LIM, DXS_LIM, TERM_LIM, CHARGES_LIM, COLLIDE_R2, GRID_LIM,
    charges_ok, sc_ok, too_close, collides, field_sum, field_term, term_at, field_term_exec,
};

verus! {

/// A movable point charge. Once `should_move` is false the charge is frozen
/// in place and never updated again; `collided` records (stickily) that the
/// freeze was caused by a collision with a stationary charge.
#[derive(Clone, Copy, PartialEq, Eq, Structural, Debug)]
pub struct MovableCharge {
    pub should_move: bool,
    pub collided: bool,
    pub x: i64,
    pub y: i64,
    pub q: i64,
    pub m: i64,
    pub v: XY<i64>,
    pub a: XY<i64>,
}

/// A movable charge whose state is within the representable simulation
/// range: bounded position, velocity, acceleration and charge, and a
/// strictly positive mass (a zero mass is rejected at load time).
pub open spec fn mc_ok(m: MovableCharge) -> bool {
    &&& mag(m.x as int) <= POS_LIM
    &&& mag(m.y as int) <= POS_LIM
    &&& mag(m.q as int) <= Q_LIM
    &&& 1 <= m.m
    &&& mag(m.v.x as int) <= VEL_LIM
    &&& mag(m.v.y as int) <= VEL_LIM
    &&& mag(m.a.x as int) <= ACC_LIM
    &&& mag(m.a.y as int) <= ACC_LIM
}

/// Net field at the scaled point `(x, y)`, or `None` when the point is
/// within the collision distance of some stationary charge.
pub fn field_intensity_movable(x: i64, y: i64, stationary_charges: &Vec<StationaryCharge>) -> (r:
    Option<XY<i64>>)
    requires
        mag(x as int) <= POS_LIM,
        mag(y as int) <= POS_LIM,
        charges_ok(stationary_charges@),
    ensures
        match r {
            None => collides(stationary_charges@, x as int, y as int),
            Some(e) => {
                &&& !collides(stationary_charges@, x as int, y as int)
                &&& e.x == clamp_mag(field_sum(stationary_charges@, x as int, y as int).0, i64::MAX as int)
                &&& e.y == clamp_mag(field_sum(stationary_charges@, x as int, y as int).1, i64::MAX as int)
            },
        },
{
    let ghost cs = stationary_charges@;
    let n = stationary_charges.len();
    let mut sx: i128 = 0;
    let mut sy: i128 = 0;
    let mut i: usize = 0;
    while i < n
        invariant
            0 <= i <= n,
            n == cs.len(),
            cs == stationary_charges@,
            charges_ok(cs),
            mag(x as int) <= POS_LIM,
            mag(y as int) <= POS_LIM,
            forall|j: int| 0 <= j < i ==> !too_close(#[trigger] cs[j], x as int, y as int),
            sx == field_sum(cs.take(i as int), x as int, y as int).0,
            sy == field_sum(cs.take(i as int), x as int, y as int).1,
            mag(sx as int) <= i * TERM_LIM,
            mag(sy as int) <= i * TERM_LIM,
        decreases n - i,
    {
        let c = stationary_charges[i];
        proof {
            assert(sc_ok(cs[i as int]));
        }
        let dx: i64 = x - (c.x as i64) * SCALE;
        let dy: i64 = y - (c.y as i64) * SCALE;
        let dxa: u64 = if dx < 0 {
            (-dx) as u64
        } else {
            dx as u64
        };
        let dya: u64 = if dy < 0 {
            (-dy) as u64
        } else {
            dy as u64
        };
        proof {
            vstd::arithmetic::mul::lemma_mul_upper_bound(dxa as int, DXS_LIM as int, dxa as int, DXS_LIM as int);
            vstd::arithmetic::mul::lemma_mul_upper_bound(dya as int, DXS_LIM as int, dya as int, DXS_LIM as int);
        }
        let r2: u128 = (dxa as u128) * (dxa as u128) + (dya as u128) * (dya as u128);
        proof {
            assert(r2 == dx * dx + dy * dy) by (nonlinear_arith)
                requires
                    dxa == mag(dx as int),
                    dya == mag(dy as int),
                    r2 == dxa * dxa + dya * dya,
            ;
        }
        if r2 < COLLIDE_R2 as u128 {
            proof {
                assert(too_close(cs[i as int], x as int, y as int));
            }
            return None;
        }
        let t = field_term_exec(c.q, dx, dy);
        proof {
            assert(cs.take(i as int + 1).drop_last() =~= cs.take(i as int));
            assert(cs.take(i as int + 1).last() == cs[i as int]);
            assert(term_at(cs[i as int], x as int, y as int) == field_term(
                c.q as int,
                dx as int,
                dy as int,
            ));
        }
        sx = sx + t.0 as i128;
        sy = sy + t.1 as i128;
        i = i + 1;
    }
    proof {
        assert(cs.take(n as int) =~= cs);
    }
    Some(XY { x: clamp_to_i64(sx), y: clamp_to_i64(sy) })
}

/// The exact result of one integration step on `m`.
///
/// A frozen charge is left untouched. A charge within the collision
/// distance is frozen with `collided` set, its kinematic state unchanged.
/// Otherwise position and velocity advance with the previous acceleration
/// (`x += v*dt + a*dt^2/2`, `v += a*dt`, each term rounded toward zero on
/// the fixed-point grid) and the acceleration is recomputed from the field
/// as `a = E*q/m`; if any component of the candidate state would leave the
/// representable range, the charge is instead frozen in place (not a
/// collision).
pub open spec fn advance_step(m: MovableCharge, cs: Seq<StationaryCharge>, dt: int) -> MovableCharge {
    if !m.should_move {
        m
    } else if collides(cs, m.x as int, m.y as int) {
        MovableCharge { should_move: false, collided: true, ..m }
    } else {
        let e = field_sum(cs, m.x as int, m.y as int);
        let ex = clamp_mag(e.0, i64::MAX as int);
        let ey = clamp_mag(e.1, i64::MAX as int);
        let nx = m.x + tdiv(m.v.x * dt, SCALE as int) + tdiv(m.a.x * dt * dt, 2 * (SCALE as int) * (SCALE as int));
        let ny = m.y + tdiv(m.v.y * dt, SCALE as int) + tdiv(m.a.y * dt * dt, 2 * (SCALE as int) * (SCALE as int));
        let nvx = m.v.x + tdiv(m.a.x * dt, SCALE as int);
        let nvy = m.v.y + tdiv(m.a.y * dt, SCALE as int);
        let nax = tdiv(ex * m.q, m.m as int);
        let nay = tdiv(ey * m.q, m.m as int);
        if mag(nx) <= POS_LIM && mag(ny) <= POS_LIM && mag(nvx) <= VEL_LIM && mag(nvy) <= VEL_LIM
            && mag(nax) <= ACC_LIM && mag(nay) <= ACC_LIM {
            MovableCharge {
                x: nx as i64,
                y: ny as i64,
                v: XY { x: nvx as i64, y: nvy as i64 },
                a: XY { x: nax as i64, y: nay as i64 },
                ..m
            }
        } else {
            MovableCharge { should_move: false, ..m }
        }
    }
}

impl MovableCharge {
    /// Advance this charge by one step of length `dt` through the field of
    /// `stationary_charges`, exactly as `advance_step` describes.
    pub fn advance(&mut self, stationary_charges: &Vec<StationaryCharge>, dt: i64)
        requires
            mc_ok(*old(self)),
            charges_ok(stationary_charges@),
            0 < dt <= DT_LIM,
        ensures
            *final(self) == advance_step(*old(self), stationary_charges@, dt as int),
            mc_ok(*final(self)),
    {
        if !self.should_move {
            return ;
        }
        match field_intensity_movable(self.x, self.y, stationary_charges) {
            None => {
                self.collided = true;
                self.should_move = false;
            },
            Some(e) => {
                proof {
                    lemma_mag_mul_bound(self.v.x as int, dt as int, VEL_LIM as int, DT_LIM as int);
                    lemma_mag_mul_bound(self.v.y as int, dt as int, VEL_LIM as int, DT_LIM as int);
                    lemma_mag_mul_bound(self.a.x as int, dt as int, ACC_LIM as int, DT_LIM as int);
                    lemma_mag_mul_bound(self.a.y as int, dt as int, ACC_LIM as int, DT_LIM as int);
                    lemma_mag_mul_bound(
                        self.a.x * dt,
                        dt as int,
                        (ACC_LIM as int) * (DT_LIM as int),
                        DT_LIM as int,
                    );
                    lemma_mag_mul_bound(
                        self.a.y * dt,
                        dt as int,
                        (ACC_LIM as int) * (DT_LIM as int),
                        DT_LIM as int,
                    );
                    lemma_mag_mul_bound(e.x as int, self.q as int, i64::MAX as int, Q_LIM as int);
                    lemma_mag_mul_bound(e.y as int, self.q as int, i64::MAX as int, Q_LIM as int);
                }
                let tx1 = tdiv_i128((self.v.x as i128) * (dt as i128), SCALE as i128);
                let ty1 = tdiv_i128((self.v.y as i128) * (dt as i128), SCALE as i128);
                let tx2 = tdiv_i128(
                    (self.a.x as i128) * (dt as i128) * (dt as i128),
                    2 * (SCALE as i128) * (SCALE as i128),
                );
                let ty2 = tdiv_i128(
                    (self.a.y as i128) * (dt as i128) * (dt as i128),
                    2 * (SCALE as i128) * (SCALE as i128),
                );
                let nx = self.x as i128 + tx1 + tx2;
                let ny = self.y as i128 + ty1 + ty2;
                let nvx = self.v.x as i128 + tdiv_i128((self.a.x as i128) * (dt as i128), SCALE as i128);
                let nvy = self.v.y as i128 + tdiv_i128((self.a.y as i128) * (dt as i128), SCALE as i128);
                let nax = tdiv_i128((e.x as i128) * (self.q as i128), self.m as i128);
                let nay = tdiv_i128((e.y as i128) * (self.q as i128), self.m as i128);
                let in_range = -(POS_LIM as i128) <= nx && nx <= POS_LIM as i128 && -(POS_LIM as i128)
                    <= ny && ny <= POS_LIM as i128 && -(VEL_LIM as i128) <= nvx && nvx
                    <= VEL_LIM as i128 && -(VEL_LIM as i128) <= nvy && nvy <= VEL_LIM as i128 && -(
                ACC_LIM as i128) <= nax && nax <= ACC_LIM as i128 && -(ACC_LIM as i128) <= nay && nay
                    <= ACC_LIM as i128;
                if in_range {
                    self.x = nx as i64;
                    self.y = ny as i64;
                    self.v = XY { x: nvx as i64, y: nvy as i64 };
                    self.a = XY { x: nax as i64, y: nay as i64 };
                } else {
                    self.should_move = false;
                }
            },
        }
    }
}

} // verus!
