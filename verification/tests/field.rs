use fieldsim::cellgrid::{field_intensity_potential, StationaryCharge};
use fieldsim::helpers::{in_bounds, XY, SCALE};
use fieldsim::movable_charge::field_intensity_movable;

const S: i64 = SCALE;

fn sc(x: usize, y: usize, q: i64) -> StationaryCharge {
    StationaryCharge { x, y, q }
}

#[test]
fn zero_charges_give_zero_field_and_potential() {
    let charges: Vec<StationaryCharge> = Vec::new();
    let e = field_intensity_movable(123 * S, -77 * S, &charges).unwrap();
    assert_eq!(e.x, 0);
    assert_eq!(e.y, 0);
    let cd = field_intensity_potential(&charges, 40, 7);
    assert_eq!(cd.intensity.x, 0);
    assert_eq!(cd.intensity.y, 0);
    assert_eq!(cd.potential, 0);
}

#[test]
fn single_charge_inverse_square_magnitude() {
    // q = 5 at the origin, sampled 100 units away on the x axis:
    // E = K*q/r^2 = 8.99e9 * 5 / 1e4 and V = K*q/r = 8.99e9 * 5 / 100.
    let charges = vec![sc(0, 0, 5 * S)];
    let e = field_intensity_movable(100 * S, 0, &charges).unwrap();
    let ex = e.x as f64 / S as f64;
    let expected_e = 8.99e9 * 5.0 / (100.0f64 * 100.0);
    assert!((ex - expected_e).abs() <= 1e-3 * expected_e);
    assert_eq!(e.y, 0);
    let cd = field_intensity_potential(&charges, 100, 0);
    let v = cd.potential as f64 / S as f64;
    let expected_v = 8.99e9 * 5.0 / 100.0;
    assert!((v - expected_v).abs() <= 1e-3 * expected_v);
}

#[test]
fn single_charge_exact_fixed_point_values() {
    // With r = 100 exactly, the fixed-point evaluation has no rounding at
    // all: E scaled is K*5/100^2 * SCALE and V scaled is K*5/100 * SCALE.
    let charges = vec![sc(0, 0, 5 * S)];
    let e = field_intensity_movable(100 * S, 0, &charges).unwrap();
    assert_eq!(e.x, 4_495_000_000_000);
    assert_eq!(e.y, 0);
    let cd = field_intensity_potential(&charges, 100, 0);
    assert_eq!(cd.potential, 449_500_000_000_000);
    assert_eq!(cd.intensity.x, 4_495_000_000_000);
    assert_eq!(cd.intensity.y, 0);
}

#[test]
fn field_points_away_from_positive_charge() {
    let plus = vec![sc(10, 10, 3 * S)];
    // query to the right of the charge: field x component positive
    let e = field_intensity_movable(20 * S, 10 * S, &plus).unwrap();
    assert!(e.x > 0);
    assert_eq!(e.y, 0);
    // query to the left: x component negative
    let e = field_intensity_movable(2 * S, 10 * S, &plus).unwrap();
    assert!(e.x < 0);
    // above (smaller y): y component negative
    let e = field_intensity_movable(10 * S, 3 * S, &plus).unwrap();
    assert!(e.y < 0);
    assert_eq!(e.x, 0);
    let cd = field_intensity_potential(&plus, 20, 10);
    assert!(cd.potential > 0);
}

#[test]
fn field_points_toward_negative_charge() {
    let minus = vec![sc(10, 10, -3 * S)];
    let e = field_intensity_movable(20 * S, 10 * S, &minus).unwrap();
    assert!(e.x < 0);
    let e = field_intensity_movable(2 * S, 10 * S, &minus).unwrap();
    assert!(e.x > 0);
    let cd = field_intensity_potential(&minus, 20, 10);
    assert!(cd.potential < 0);
}

#[test]
fn negating_all_charges_negates_field_exactly() {
    let charges = vec![sc(3, 4, 2 * S), sc(9, 1, -S / 2), sc(7, 7, 55_000)];
    let negated: Vec<StationaryCharge> =
        charges.iter().map(|c| sc(c.x, c.y, -c.q)).collect();
    let e = field_intensity_movable(33 * S / 2, 21 * S / 4, &charges).unwrap();
    let en = field_intensity_movable(33 * S / 2, 21 * S / 4, &negated).unwrap();
    assert_eq!(en.x, -e.x);
    assert_eq!(en.y, -e.y);
    let cd = field_intensity_potential(&charges, 15, 2);
    let cdn = field_intensity_potential(&negated, 15, 2);
    assert_eq!(cdn.intensity.x, -cd.intensity.x);
    assert_eq!(cdn.intensity.y, -cd.intensity.y);
    assert_eq!(cdn.potential, -cd.potential);
}

#[test]
fn too_close_query_reports_collision() {
    let charges = vec![sc(10, 10, S)];
    // within distance 2 of the charge
    assert!(field_intensity_movable(11 * S, 10 * S, &charges).is_none());
    // exactly at distance 2: not a collision
    assert!(field_intensity_movable(12 * S, 10 * S, &charges).is_some());
}

#[test]
fn vector_length_and_normalize() {
    let v = XY { x: 3 * S, y: 4 * S };
    assert_eq!(v.length(), 5 * S);
    let n = v.normalize();
    assert_eq!(n.x, 600_000);
    assert_eq!(n.y, 800_000);
    let w = XY { x: -5 * S, y: 0 };
    let nw = w.normalize();
    assert_eq!(nw.x, -S);
    assert_eq!(nw.y, 0);
}

#[test]
fn in_bounds_is_strict() {
    assert!(in_bounds(5, 5, 0, 10, 0, 10));
    assert!(!in_bounds(0, 5, 0, 10, 0, 10));
    assert!(!in_bounds(10, 5, 0, 10, 0, 10));
    assert!(!in_bounds(5, 11, 0, 10, 0, 10));
    assert!(in_bounds(-3, -3, -4, 0, -4, 0));
}

#[test]
fn single_charge_magnitude_at_an_irrational_distance() {
    // 100 units diagonally: r = 100 * sqrt(2), irrational, so the fixed
    // point result is only near the real value; check within tolerance
    let charges = vec![sc(0, 0, 5 * S)];
    let e = field_intensity_movable(100 * S, 100 * S, &charges).unwrap();
    let (ex, ey) = (e.x as f64 / S as f64, e.y as f64 / S as f64);
    let r2 = 2.0 * 100.0f64 * 100.0;
    let expected_mag = 8.99e9 * 5.0 / r2;
    let magnitude = (ex * ex + ey * ey).sqrt();
    assert!((magnitude - expected_mag).abs() <= 1e-3 * expected_mag);
    assert_eq!(e.x, e.y); // symmetry on the diagonal
    assert!(e.x > 0 && e.y > 0);
}
