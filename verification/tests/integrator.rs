use fieldsim::cellgrid::{CellGrid, StationaryCharge};
use fieldsim::helpers::{XY, SCALE};
use fieldsim::movable_charge::MovableCharge;

const S: i64 = SCALE;

fn grid_with(stationary: &[(usize, usize, i64)], movable: &[MovableCharge]) -> CellGrid {
    let mut g = CellGrid::new(256, 256, false);
    for &(x, y, q) in stationary {
        g.add_stationary_charge(StationaryCharge { x, y, q });
    }
    for m in movable {
        g.add_movable_charge(*m);
    }
    g
}

fn resting(x: i64, y: i64, q: i64, m: i64) -> MovableCharge {
    MovableCharge {
        should_move: true,
        collided: false,
        x,
        y,
        q,
        m,
        v: XY { x: 0, y: 0 },
        a: XY { x: 0, y: 0 },
    }
}

#[test]
fn identical_runs_give_identical_trajectories() {
    let stationary = [(0usize, 0usize, 5 * S), (40usize, 30usize, -2 * S)];
    let mover = resting(100 * S, 10 * S, S, S);
    let mut g1 = grid_with(&stationary, &[mover]);
    let mut g2 = grid_with(&stationary, &[mover]);
    for _ in 0..50 {
        g1.update_movable_charges(10_000);
        g2.update_movable_charges(10_000);
    }
    let a = &g1.movable_charges[0];
    let b = &g2.movable_charges[0];
    assert_eq!(a.x, b.x);
    assert_eq!(a.y, b.y);
    assert_eq!(a.v, b.v);
    assert_eq!(a.a, b.a);
    assert_eq!(a.should_move, b.should_move);
    assert_eq!(a.collided, b.collided);
}

#[test]
fn collision_freezes_on_the_crossing_step() {
    // A chargeless particle drifting toward the stationary charge at
    // (0, 0) with speed 1/2 unit per step: 3.0, 2.5, 2.0, 1.5 ...
    // The threshold is distance < 2, so the step landing on 2.0 still
    // moves, and the step after (at 1.5) is refused: the particle freezes
    // where it stood, flags set, kinematics untouched.
    let mut m = resting(3 * S, 0, 0, S);
    m.v = XY { x: -S, y: 0 };
    let mut g = grid_with(&[(0, 0, 5 * S)], &[m]);
    let dt = 500_000; // half a second

    g.update_movable_charges(dt);
    let c = &g.movable_charges[0];
    assert_eq!(c.x, 5 * S / 2);
    assert!(c.should_move && !c.collided);

    g.update_movable_charges(dt);
    let c = &g.movable_charges[0];
    assert_eq!(c.x, 2 * S);
    assert!(c.should_move && !c.collided);

    // at exactly distance 2 the particle still moves
    g.update_movable_charges(dt);
    let c = &g.movable_charges[0];
    assert_eq!(c.x, 3 * S / 2);
    assert!(c.should_move && !c.collided);

    // now within the threshold: frozen in place, collided set, state kept
    g.update_movable_charges(dt);
    let c = &g.movable_charges[0];
    assert_eq!(c.x, 3 * S / 2);
    assert_eq!(c.v, XY { x: -S, y: 0 });
    assert!(!c.should_move && c.collided);

    // further steps leave the frozen particle exactly as it is
    for _ in 0..5 {
        g.update_movable_charges(dt);
        let c = &g.movable_charges[0];
        assert_eq!(c.x, 3 * S / 2);
        assert_eq!(c.y, 0);
        assert_eq!(c.v, XY { x: -S, y: 0 });
        assert_eq!(c.a, XY { x: 0, y: 0 });
        assert!(!c.should_move && c.collided);
    }
}

#[test]
fn like_charges_repel_with_growing_speed() {
    // One stationary charge q = +5 at the origin; a movable charge q = +1,
    // mass 1, resting at (100, 0); dt = 0.01 for 100 steps. Like charges
    // repel: the mover drifts away from the origin along +x, its speed
    // strictly growing once the first field evaluation has set its
    // acceleration.
    let mover = resting(100 * S, 0, S, S);
    let mut g = grid_with(&[(0, 0, 5 * S)], &[mover]);
    let mut last_x = 100 * S;
    let mut last_vx = 0i64;
    for step in 0..100 {
        g.update_movable_charges(10_000);
        let c = &g.movable_charges[0];
        assert!(c.should_move && !c.collided);
        assert_eq!(c.y, 0);
        assert_eq!(c.v.y, 0);
        if step == 0 {
            // the first step still uses the zero acceleration it started with
            assert_eq!(c.x, last_x);
            assert_eq!(c.v.x, 0);
        } else {
            assert!(c.x > last_x);
            assert!(c.v.x > last_vx);
        }
        assert!(c.a.x > 0);
        last_x = c.x;
        last_vx = c.v.x;
    }
    assert!(last_x > 100 * S);
    assert!(last_vx > 0);
}

#[test]
fn frozen_charge_is_skipped_entirely() {
    let mut m = resting(50 * S, 50 * S, S, S);
    m.should_move = false;
    m.v = XY { x: 7, y: -7 };
    let mut g = grid_with(&[(0, 0, 5 * S)], &[m]);
    g.update_movable_charges(10_000);
    let c = &g.movable_charges[0];
    assert_eq!(c.x, 50 * S);
    assert_eq!(c.y, 50 * S);
    assert_eq!(c.v, XY { x: 7, y: -7 });
    assert!(!c.should_move);
    assert!(!c.collided);
}

#[test]
fn each_movable_charge_is_updated_independently() {
    // two movers: one far away (keeps moving), one inside the collision
    // radius (freezes); indices stay stable
    let far = resting(100 * S, 0, S, S);
    let near = resting(S, 0, S, S);
    let mut g = grid_with(&[(0, 0, 5 * S)], &[far, near]);
    g.update_movable_charges(10_000);
    assert!(g.movable_charges[0].should_move);
    assert!(!g.movable_charges[0].collided);
    assert!(!g.movable_charges[1].should_move);
    assert!(g.movable_charges[1].collided);
    assert_eq!(g.movable_charges[1].x, S);
}

#[test]
fn advance_can_be_called_on_one_charge_directly() {
    let charges = vec![StationaryCharge { x: 0, y: 0, q: 5 * S }];
    let mut m = resting(100 * S, 0, S, S);
    m.advance(&charges, 10_000);
    // first step: old (zero) acceleration moves nothing, new field sets a
    assert_eq!(m.x, 100 * S);
    assert_eq!(m.v.x, 0);
    assert_eq!(m.a.x, 4_495_000_000_000);
    m.advance(&charges, 10_000);
    assert!(m.x > 100 * S);
    assert!(m.v.x > 0);
}

#[test]
fn leaving_the_representable_range_freezes_without_collision() {
    // a charge so fast that one step would carry it beyond the coordinate
    // range: it freezes in place, but it has not collided
    let mut m = resting(100 * S, 0, 0, S);
    m.v = XY { x: 1_000_000_000_000_000, y: 0 };
    let mut g = grid_with(&[(0, 0, 5 * S)], &[m]);
    g.update_movable_charges(1_000_000_000);
    let c = &g.movable_charges[0];
    assert!(!c.should_move);
    assert!(!c.collided);
    assert_eq!(c.x, 100 * S);
    assert_eq!(c.v.x, 1_000_000_000_000_000);
}

#[test]
fn collision_count_tracks_collided_charges() {
    let far = resting(100 * S, 0, S, S);
    let near = resting(S, 0, S, S);
    let also_near = resting(0, S, S, S);
    let mut g = grid_with(&[(0, 0, 5 * S)], &[far, near, also_near]);
    assert_eq!(g.collision_count(), 0);
    assert_eq!(g.movable_charge_count(), 3);
    assert_eq!(g.stationary_charge_count(), 1);
    g.update_movable_charges(10_000);
    assert_eq!(g.collision_count(), 2);
    assert_eq!(g.movable_charge_count(), 3);
}
