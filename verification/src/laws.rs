//! Global laws of the field model and the integrator, stated and proved
//! once over the specification-level definitions.

use vstd::prelude::*;
use crate::math::{mag, sqrt_floor, clamp_mag, lemma_sqrt_floor_bounds};
use crate::helpers::SCALE;
use crate::cellgrid::StationaryCharge;
use crate::field::{
    Q_LIM, charges_ok, sc_ok, dist_r2, too_close, collides, coincides, field_term, term_at,
    field_sum, sample_for_display,
};
use crate::movable_charge::{MovableCharge, advance_step};

verus! {

/// With no stationary charges, the field and the potential are zero at
/// every point, no point collides, and the background sample is zero.
pub proof fn lemma_empty_field(x: int, y: int)
    ensures
        field_sum(Seq::<StationaryCharge>::empty(), x, y) == (0int, 0int, 0int),
        !collides(Seq::<StationaryCharge>::empty(), x, y),
        !coincides(Seq::<StationaryCharge>::empty(), x, y),
        sample_for_display(Seq::<StationaryCharge>::empty(), x, y) == (0int, 0int, 0int),
{
}

/// The distance of a point to a charge is a sum of squares: nonnegative,
/// and at least 1 once it is not zero; and the scaled distance is then at
/// least 1 as well.
proof fn lemma_dist_positive(c: StationaryCharge, x: int, y: int)
    requires
        dist_r2(c, x, y) != 0,
    ensures
        dist_r2(c, x, y) >= 1,
        1 <= sqrt_floor(dist_r2(c, x, y) as nat),
{
    let dx = x - c.x * SCALE;
    let dy = y - c.y * SCALE;
    assert(dx * dx + dy * dy >= 0) by (nonlinear_arith);
    lemma_sqrt_floor_bounds(dist_r2(c, x, y) as nat);
    let rs = sqrt_floor(dist_r2(c, x, y) as nat);
    assert(rs >= 1) by (nonlinear_arith)
        requires
            dist_r2(c, x, y) >= 1,
            dist_r2(c, x, y) < (rs + 1) * (rs + 1),
            rs >= 0,
    ;
}

/// The magnitudes inside one field term are nonnegative, and a term of a
/// zero charge, or along a zero displacement, vanishes.
proof fn lemma_term_magnitudes(q: int, dx: int, dy: int)
    requires
        dx * dx + dy * dy >= 1,
    ensures
        ({
            let rs = sqrt_floor((dx * dx + dy * dy) as nat) as int;
            let g = (crate::helpers::K * mag(q) * SCALE) / rs;
            let exm = (g * mag(dx) * SCALE) / (rs * rs);
            let eym = (g * mag(dy) * SCALE) / (rs * rs);
            &&& 0 <= g
            &&& 0 <= exm
            &&& 0 <= eym
            &&& q == 0 ==> g == 0 && exm == 0 && eym == 0
            &&& dx == 0 ==> exm == 0
            &&& dy == 0 ==> eym == 0
        }),
{
    lemma_sqrt_floor_bounds((dx * dx + dy * dy) as nat);
    let rs = sqrt_floor((dx * dx + dy * dy) as nat) as int;
    assert(rs >= 1) by (nonlinear_arith)
        requires
            dx * dx + dy * dy >= 1,
            dx * dx + dy * dy < (rs + 1) * (rs + 1),
            rs >= 0,
    ;
    let num = crate::helpers::K * mag(q) * SCALE;
    assert(num >= 0 && (q == 0 ==> num == 0)) by (nonlinear_arith)
        requires
            mag(q) >= 0,
            q == 0 ==> mag(q) == 0,
            num == crate::helpers::K * mag(q) * SCALE,
    ;
    let g = num / rs;
    vstd::arithmetic::div_mod::lemma_div_pos_is_pos(num, rs);
    let rs2 = rs * rs;
    assert(rs2 >= 1) by (nonlinear_arith)
        requires
            rs >= 1,
            rs2 == rs * rs,
    ;
    let numx = g * mag(dx) * SCALE;
    let numy = g * mag(dy) * SCALE;
    assert(numx >= 0 && numy >= 0 && (g == 0 ==> numx == 0 && numy == 0) && (dx == 0 ==> numx == 0)
        && (dy == 0 ==> numy == 0)) by (nonlinear_arith)
        requires
            g >= 0,
            mag(dx) >= 0,
            mag(dy) >= 0,
            dx == 0 ==> mag(dx) == 0,
            dy == 0 ==> mag(dy) == 0,
            numx == g * mag(dx) * SCALE,
            numy == g * mag(dy) * SCALE,
    ;
    vstd::arithmetic::div_mod::lemma_div_pos_is_pos(numx, rs2);
    vstd::arithmetic::div_mod::lemma_div_pos_is_pos(numy, rs2);
    if q == 0 {
        vstd::arithmetic::div_mod::lemma_div_of0(rs);
        vstd::arithmetic::div_mod::lemma_div_of0(rs2);
    }
    if dx == 0 {
        vstd::arithmetic::div_mod::lemma_div_of0(rs2);
    }
    if dy == 0 {
        vstd::arithmetic::div_mod::lemma_div_of0(rs2);
    }
}

/// The field of a single charge points away from a positive charge and
/// toward a negative one: along each axis, the field component has the
/// sign of the charge times the displacement from the charge to the point,
/// and the potential has the charge's sign.
pub proof fn lemma_single_charge_direction(c: StationaryCharge, x: int, y: int)
    requires
        sc_ok(c),
        dist_r2(c, x, y) != 0,
    ensures
        ({
            let t = field_sum(seq![c], x, y);
            let dx = x - c.x * SCALE;
            let dy = y - c.y * SCALE;
            &&& c.q > 0 ==> t.0 * dx >= 0 && t.1 * dy >= 0 && t.0 * dx + t.1 * dy >= 0 && t.2 >= 0
            &&& c.q < 0 ==> t.0 * dx <= 0 && t.1 * dy <= 0 && t.0 * dx + t.1 * dy <= 0 && t.2 <= 0
            &&& c.q == 0 ==> t == (0int, 0int, 0int)
        }),
{
    let dx = x - c.x * SCALE;
    let dy = y - c.y * SCALE;
    lemma_dist_positive(c, x, y);
    lemma_term_magnitudes(c.q as int, dx, dy);
    assert(seq![c].drop_last() =~= Seq::<StationaryCharge>::empty());
    assert(seq![c].last() == c);
    assert(field_sum(Seq::<StationaryCharge>::empty(), x, y) == (0int, 0int, 0int));
    assert(field_sum(seq![c], x, y).0 == term_at(c, x, y).0);
    assert(field_sum(seq![c], x, y).1 == term_at(c, x, y).1);
    assert(field_sum(seq![c], x, y).2 == term_at(c, x, y).2);
    let rs = sqrt_floor((dx * dx + dy * dy) as nat) as int;
    let g = (crate::helpers::K * mag(c.q as int) * SCALE) / rs;
    let exm = (g * mag(dx) * SCALE) / (rs * rs);
    let eym = (g * mag(dy) * SCALE) / (rs * rs);
    let t = term_at(c, x, y);
    if c.q > 0 {
        assert(t.0 * dx >= 0 && t.1 * dy >= 0) by (nonlinear_arith)
            requires
                c.q > 0,
                exm >= 0,
                eym >= 0,
                t.0 == if c.q * dx < 0 { -exm } else { exm },
                t.1 == if c.q * dy < 0 { -eym } else { eym },
        ;
    }
    if c.q < 0 {
        assert(t.0 * dx <= 0 && t.1 * dy <= 0) by (nonlinear_arith)
            requires
                c.q < 0,
                exm >= 0,
                eym >= 0,
                t.0 == if c.q * dx < 0 { -exm } else { exm },
                t.1 == if c.q * dy < 0 { -eym } else { eym },
        ;
    }
}

/// The same charge with its sign swapped.
pub open spec fn negated(c: StationaryCharge) -> StationaryCharge {
    StationaryCharge { x: c.x, y: c.y, q: (-(c.q as int)) as i64 }
}

/// All charges with their signs swapped.
pub open spec fn negated_all(cs: Seq<StationaryCharge>) -> Seq<StationaryCharge> {
    cs.map_values(|c: StationaryCharge| negated(c))
}

/// Swapping one charge's sign negates its field term exactly; magnitudes
/// are untouched because the sign is applied outside the division.
proof fn lemma_term_negation(c: StationaryCharge, x: int, y: int)
    requires
        mag(c.q as int) <= Q_LIM,
        dist_r2(c, x, y) != 0,
    ensures
        term_at(negated(c), x, y).0 == -term_at(c, x, y).0,
        term_at(negated(c), x, y).1 == -term_at(c, x, y).1,
        term_at(negated(c), x, y).2 == -term_at(c, x, y).2,
{
    let dx = x - c.x * SCALE;
    let dy = y - c.y * SCALE;
    lemma_dist_positive(c, x, y);
    lemma_term_magnitudes(c.q as int, dx, dy);
    let nq: int = -(c.q as int);
    assert(negated(c).q == nq);
    assert(mag(nq) == mag(c.q as int));
    lemma_term_magnitudes(nq, dx, dy);
    let t = term_at(c, x, y);
    let tn = term_at(negated(c), x, y);
    let rs = sqrt_floor((dx * dx + dy * dy) as nat) as int;
    let g = (crate::helpers::K * mag(c.q as int) * SCALE) / rs;
    let exm = (g * mag(dx) * SCALE) / (rs * rs);
    let eym = (g * mag(dy) * SCALE) / (rs * rs);
    assert(tn.0 == -t.0 && tn.1 == -t.1 && tn.2 == -t.2) by (nonlinear_arith)
        requires
            nq == -(c.q as int),
            exm >= 0,
            eym >= 0,
            c.q == 0 ==> exm == 0 && eym == 0,
            dx == 0 ==> exm == 0,
            dy == 0 ==> eym == 0,
            t.0 == if c.q * dx < 0 { -exm } else { exm },
            t.1 == if c.q * dy < 0 { -eym } else { eym },
            t.2 == if c.q < 0 { -g } else { g },
            tn.0 == if nq * dx < 0 { -exm } else { exm },
            tn.1 == if nq * dy < 0 { -eym } else { eym },
            tn.2 == if nq < 0 { -g } else { g },
            c.q == 0 ==> g == 0,
    ;
}

/// Swapping the sign of every charge negates the field vector and the
/// potential at any point not coincident with a charge, and leaves the
/// collision and coincidence judgements unchanged.
pub proof fn lemma_field_negation(cs: Seq<StationaryCharge>, x: int, y: int)
    requires
        charges_ok(cs),
        forall|i: int| 0 <= i < cs.len() ==> dist_r2(#[trigger] cs[i], x, y) != 0,
    ensures
        charges_ok(negated_all(cs)),
        field_sum(negated_all(cs), x, y).0 == -field_sum(cs, x, y).0,
        field_sum(negated_all(cs), x, y).1 == -field_sum(cs, x, y).1,
        field_sum(negated_all(cs), x, y).2 == -field_sum(cs, x, y).2,
        collides(negated_all(cs), x, y) == collides(cs, x, y),
    decreases cs.len(),
{
    let ns = negated_all(cs);
    assert forall|i: int| 0 <= i < ns.len() implies sc_ok(#[trigger] ns[i]) && dist_r2(ns[i], x, y)
        == dist_r2(cs[i], x, y) by {
        assert(sc_ok(cs[i]));
        assert(ns[i] == negated(cs[i]));
    }
    assert(collides(ns, x, y) == collides(cs, x, y)) by {
        if collides(cs, x, y) {
            let i = choose|i: int| 0 <= i < cs.len() && too_close(#[trigger] cs[i], x, y);
            assert(too_close(ns[i], x, y));
        }
        if collides(ns, x, y) {
            let i = choose|i: int| 0 <= i < ns.len() && too_close(#[trigger] ns[i], x, y);
            assert(too_close(cs[i], x, y));
        }
    }
    if cs.len() == 0 {
        assert(ns =~= Seq::<StationaryCharge>::empty());
    } else {
        let prev = cs.drop_last();
        lemma_field_negation(prev, x, y);
        assert(ns.drop_last() =~= negated_all(prev));
        assert(ns.last() == negated(cs.last()));
        assert(sc_ok(cs.last()));
        lemma_term_negation(cs.last(), x, y);
    }
}

/// Swapping the sign of every charge negates the background sample as well
/// (away from the sentinel case, which is unchanged).
pub proof fn lemma_display_negation(cs: Seq<StationaryCharge>, x: int, y: int)
    requires
        charges_ok(cs),
    ensures
        coincides(negated_all(cs), x * SCALE, y * SCALE) == coincides(cs, x * SCALE, y * SCALE),
        !coincides(cs, x * SCALE, y * SCALE) ==> {
            &&& sample_for_display(negated_all(cs), x, y).0 == -sample_for_display(cs, x, y).0
            &&& sample_for_display(negated_all(cs), x, y).1 == -sample_for_display(cs, x, y).1
            &&& sample_for_display(negated_all(cs), x, y).2 == -sample_for_display(cs, x, y).2
        },
{
    let px = x * SCALE;
    let py = y * SCALE;
    let ns = negated_all(cs);
    assert forall|i: int| 0 <= i < ns.len() implies dist_r2(#[trigger] ns[i], px, py) == dist_r2(
        cs[i],
        px,
        py,
    ) by {
        assert(ns[i] == negated(cs[i]));
    }
    assert(coincides(ns, px, py) == coincides(cs, px, py)) by {
        if coincides(cs, px, py) {
            let i = choose|i: int| 0 <= i < cs.len() && dist_r2(#[trigger] cs[i], px, py) == 0;
            assert(dist_r2(ns[i], px, py) == 0);
        }
        if coincides(ns, px, py) {
            let i = choose|i: int| 0 <= i < ns.len() && dist_r2(#[trigger] ns[i], px, py) == 0;
            assert(dist_r2(cs[i], px, py) == 0);
        }
    }
    if !coincides(cs, px, py) {
        assert forall|i: int| 0 <= i < cs.len() implies dist_r2(#[trigger] cs[i], px, py) != 0 by {
        }
        lemma_field_negation(cs, px, py);
    }
}

/// A frozen movable charge is left exactly as it is by every further step.
pub proof fn lemma_frozen_charge_unchanged(m: MovableCharge, cs: Seq<StationaryCharge>, dt: int)
    requires
        !m.should_move,
    ensures
        advance_step(m, cs, dt) == m,
{
}

/// A moving charge within the collision distance of some stationary charge
/// is frozen with its sticky `collided` flag set, and its kinematic state
/// is untouched by that step.
pub proof fn lemma_collision_freezes(m: MovableCharge, cs: Seq<StationaryCharge>, dt: int)
    requires
        m.should_move,
        collides(cs, m.x as int, m.y as int),
    ensures
        !advance_step(m, cs, dt).should_move,
        advance_step(m, cs, dt).collided,
        advance_step(m, cs, dt).x == m.x,
        advance_step(m, cs, dt).y == m.y,
        advance_step(m, cs, dt).v == m.v,
        advance_step(m, cs, dt).a == m.a,
        advance_step(m, cs, dt).q == m.q,
        advance_step(m, cs, dt).m == m.m,
{
}

} // verus!
