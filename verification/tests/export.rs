use fieldsim::cellgrid::{CellGrid, MovementStep, StationaryCharge};
use fieldsim::format::{grid_to_text, movement_to_text, push_scaled};
use fieldsim::helpers::{XY, SCALE};

const S: i64 = SCALE;

fn scaled_text(v: i64) -> String {
    let mut out: Vec<u8> = Vec::new();
    push_scaled(&mut out, v);
    String::from_utf8(out).unwrap()
}

#[test]
fn numbers_print_with_six_decimals() {
    assert_eq!(scaled_text(0), "0.000000");
    assert_eq!(scaled_text(1_500_000), "1.500000");
    assert_eq!(scaled_text(-1), "-0.000001");
    assert_eq!(scaled_text(12 * S + 345), "12.000345");
    assert_eq!(scaled_text(-98_700_000), "-98.700000");
    assert_eq!(scaled_text(i64::MAX), "9223372036854.775807");
}

#[test]
fn grid_export_lists_cells_row_by_row() {
    let mut g = CellGrid::new(2, 2, false);
    g.add_stationary_charge(StationaryCharge { x: 1, y: 0, q: 2 * S });
    let text = String::from_utf8(grid_to_text(&g.cells)).unwrap();
    // the field has not been sampled, so e and v are still zero
    let expected = "0, 0, 0.000000, 0.000000, 0.000000, 0.000000, 0.000000\n\
                    1, 0, 2.000000, 0.000000, 0.000000, 0.000000, 0.000000\n\
                    0, 1, 0.000000, 0.000000, 0.000000, 0.000000, 0.000000\n\
                    1, 1, 0.000000, 0.000000, 0.000000, 0.000000, 0.000000\n";
    assert_eq!(text, expected);
}

#[test]
fn grid_export_includes_field_magnitude() {
    let mut g = CellGrid::new(2, 1, false);
    g.cells[0][0].e = XY { x: 3 * S, y: -4 * S };
    g.cells[0][0].v = -S / 2;
    g.cells[0][1].q = -7 * S;
    let text = String::from_utf8(grid_to_text(&g.cells)).unwrap();
    let expected = "0, 0, 0.000000, 3.000000, -4.000000, 5.000000, -0.500000\n\
                    1, 0, -7.000000, 0.000000, 0.000000, 0.000000, 0.000000\n";
    assert_eq!(text, expected);
}

#[test]
fn trajectory_export_writes_one_line_per_step() {
    let steps = vec![
        MovementStep {
            x: 100 * S,
            y: 0,
            v: XY { x: -S / 4, y: 0 },
            a: XY { x: 0, y: 125 },
        },
        MovementStep {
            x: 99 * S + 750_000,
            y: 1,
            v: XY { x: -S / 4, y: 0 },
            a: XY { x: 0, y: 125 },
        },
    ];
    let text = String::from_utf8(movement_to_text(&steps)).unwrap();
    let expected = "100.000000, 0.000000, -0.250000, 0.000000, 0.000000, 0.000125\n\
                    99.750000, 0.000001, -0.250000, 0.000000, 0.000000, 0.000125\n";
    assert_eq!(text, expected);
}

#[test]
fn sampled_grid_exports_without_surprises() {
    let mut g = CellGrid::new(3, 3, false);
    g.add_stationary_charge(StationaryCharge { x: 1, y: 1, q: S });
    g.populate_field();
    let text = String::from_utf8(grid_to_text(&g.cells)).unwrap();
    let lines: Vec<&str> = text.lines().collect();
    assert_eq!(lines.len(), 9);
    // every line has seven comma-separated fields
    for l in &lines {
        assert_eq!(l.split(", ").count(), 7);
    }
    // the occupied cell carries the saturation sentinel
    assert!(lines[4].contains("9223372036854.775807"));
}
