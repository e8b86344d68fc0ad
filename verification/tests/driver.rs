use fieldsim::cellgrid::{CellGrid, StationaryCharge};
use fieldsim::helpers::{XY, SCALE};
use fieldsim::movable_charge::MovableCharge;

const S: i64 = SCALE;

fn mover(x: i64, y: i64) -> MovableCharge {
    MovableCharge {
        should_move: true,
        collided: false,
        x,
        y,
        q: S,
        m: S,
        v: XY { x: 0, y: 0 },
        a: XY { x: 0, y: 0 },
    }
}

#[test]
fn potential_falls_off_with_distance_and_the_occupied_cell_saturates() {
    // one charge in the middle of a small sampled region: potential is
    // strictly decreasing with distance from the charge, and the occupied
    // cell reports the saturation sentinel rather than a garbage value
    let mut g = CellGrid::new(4, 4, false);
    g.add_stationary_charge(StationaryCharge { x: 2, y: 2, q: 5 * S });
    g.populate_field();
    assert_eq!(g.cells[2][2].v, i64::MAX);
    assert_eq!(g.cells[2][2].e.x, i64::MAX);
    assert_eq!(g.cells[2][2].e.y, i64::MAX);
    let mut samples: Vec<(f64, i64)> = Vec::new();
    for y in 0..4usize {
        for x in 0..4usize {
            if (x, y) == (2, 2) {
                continue;
            }
            let dx = x as f64 - 2.0;
            let dy = y as f64 - 2.0;
            samples.push(((dx * dx + dy * dy).sqrt(), g.cells[y][x].v));
        }
    }
    for a in &samples {
        for b in &samples {
            if a.0 < b.0 - 1e-9 {
                assert!(a.1 > b.1, "potential must fall with distance");
            }
            if (a.0 - b.0).abs() < 1e-9 {
                assert_eq!(a.1, b.1, "equal distances give equal potentials");
            }
        }
    }
    // all potentials of a positive charge are positive
    for s in &samples {
        assert!(s.1 > 0);
    }
}

#[test]
fn populate_field_keeps_deposited_charge_and_is_repeatable() {
    let mut g = CellGrid::new(8, 8, false);
    g.add_stationary_charge(StationaryCharge { x: 1, y: 2, q: 3 * S });
    g.populate_field();
    assert_eq!(g.cells[2][1].q, 3 * S);
    let first: Vec<Vec<_>> = g.cells.clone();
    g.populate_field();
    for y in 0..8 {
        for x in 0..8 {
            assert_eq!(g.cells[y][x], first[y][x]);
        }
    }
}

#[test]
fn tracking_records_one_step_per_moving_charge() {
    let mut g = CellGrid::new(256, 256, true);
    g.add_stationary_charge(StationaryCharge { x: 0, y: 0, q: 5 * S });
    g.add_movable_charge(mover(100 * S, 0));
    g.add_movable_charge(mover(S, 0)); // collides at once, never recorded
    assert!(g.is_tracking_movement());
    assert_eq!(g.movement_history().len(), 2);
    assert_eq!(g.movement_history()[0].len(), 0);

    g.update_movable_charges(10_000);
    g.update_movable_charges(10_000);
    let hist = g.movement_history();
    assert_eq!(hist[0].len(), 2);
    assert_eq!(hist[1].len(), 0);
    // the record holds the state after the step
    assert_eq!(hist[0][1].x, g.movable_charges[0].x);
    assert_eq!(hist[0][1].v, g.movable_charges[0].v);
    assert_eq!(hist[0][1].a, g.movable_charges[0].a);
}

#[test]
fn enabling_tracking_resets_the_logs() {
    let mut g = CellGrid::new(256, 256, true);
    g.add_stationary_charge(StationaryCharge { x: 0, y: 0, q: 5 * S });
    g.add_movable_charge(mover(100 * S, 0));
    g.update_movable_charges(10_000);
    assert_eq!(g.movement_history()[0].len(), 1);
    g.set_movement_tracking(false);
    assert!(!g.is_tracking_movement());
    g.update_movable_charges(10_000);
    g.set_movement_tracking(true);
    assert_eq!(g.movement_history()[0].len(), 0);
    g.update_movable_charges(10_000);
    assert_eq!(g.movement_history()[0].len(), 1);
}

#[test]
fn dimensions_and_charge_slots_stay_stable() {
    let mut g = CellGrid::new(31, 17, false);
    assert_eq!(g.get_dimensions(), (31, 17));
    g.add_movable_charge(mover(5 * S, 5 * S));
    g.add_movable_charge(mover(9 * S, 9 * S));
    assert_eq!(g.movable_charges.len(), 2);
    for _ in 0..10 {
        g.update_movable_charges(10_000);
    }
    // no charge is ever removed, only frozen in place
    assert_eq!(g.movable_charges.len(), 2);
    assert_eq!(g.get_dimensions(), (31, 17));
}
