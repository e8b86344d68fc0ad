use fieldsim::cellgrid::CellGrid;
use fieldsim::parse::{
    parse_movable_charges, parse_scaled, parse_stationary_charges, parse_uint, split_lines,
    split_tokens, ParseErrorKind,
};

#[test]
fn scaled_decimals_are_read_exactly() {
    assert_eq!(parse_scaled(b"1.5"), Some(1_500_000));
    assert_eq!(parse_scaled(b"-0.000001"), Some(-1));
    assert_eq!(parse_scaled(b"2.5e-3"), Some(2_500));
    assert_eq!(parse_scaled(b".5"), Some(500_000));
    assert_eq!(parse_scaled(b"5."), Some(5_000_000));
    assert_eq!(parse_scaled(b"+12"), Some(12_000_000));
    assert_eq!(parse_scaled(b"1e3"), Some(1_000_000_000));
    assert_eq!(parse_scaled(b"1E3"), Some(1_000_000_000));
    assert_eq!(parse_scaled(b"0"), Some(0));
    assert_eq!(parse_scaled(b"-0"), Some(0));
    // truncation is toward zero on both signs
    assert_eq!(parse_scaled(b"1.2345678"), Some(1_234_567));
    assert_eq!(parse_scaled(b"-1.2345678"), Some(-1_234_567));
    // below the grid's resolution the value vanishes
    assert_eq!(parse_scaled(b"2e-9"), Some(0));
    assert_eq!(parse_scaled(b"-2e-9"), Some(0));
}

#[test]
fn malformed_or_oversized_decimals_are_refused() {
    assert_eq!(parse_scaled(b""), None);
    assert_eq!(parse_scaled(b"."), None);
    assert_eq!(parse_scaled(b"abc"), None);
    assert_eq!(parse_scaled(b"1.5x"), None);
    assert_eq!(parse_scaled(b"1e"), None);
    assert_eq!(parse_scaled(b"1e+"), None);
    assert_eq!(parse_scaled(b"1e100"), None); // exponent too long
    assert_eq!(parse_scaled(b"1234567890123456789"), None); // 19 mantissa digits
    assert_eq!(parse_scaled(b"1e13"), None); // would exceed the fixed-point range
    assert_eq!(parse_scaled(b"922337203685.477580"), Some(922_337_203_685_477_580));
    assert_eq!(parse_scaled(b"9999999999999"), None); // beyond the signed range
}

#[test]
fn unsigned_fields_are_read_exactly() {
    assert_eq!(parse_uint(b"0"), Some(0));
    assert_eq!(parse_uint(b"256"), Some(256));
    assert_eq!(parse_uint(b""), None);
    assert_eq!(parse_uint(b"12a"), None);
    assert_eq!(parse_uint(b"-3"), None);
}

#[test]
fn lines_and_tokens_split_like_the_file_format() {
    let ls = split_lines(b"a b\n\ncd\n");
    assert_eq!(ls.len(), 3);
    assert_eq!(ls[0], b"a b".to_vec());
    assert_eq!(ls[1], b"".to_vec());
    assert_eq!(ls[2], b"cd".to_vec());
    let ts = split_tokens(b"  12\t 9\r -5e-9 ");
    assert_eq!(ts.len(), 3);
    assert_eq!(ts[0], b"12".to_vec());
    assert_eq!(ts[1], b"9".to_vec());
    assert_eq!(ts[2], b"-5e-9".to_vec());
}

#[test]
fn stationary_rows_parse_in_order() {
    let text = b"# header comment\n50 130 -2.5\n120 90 2e1\n";
    let cs = parse_stationary_charges(text, 256, 256).unwrap();
    assert_eq!(cs.len(), 2);
    assert_eq!((cs[0].x, cs[0].y, cs[0].q), (50, 130, -2_500_000));
    assert_eq!((cs[1].x, cs[1].y, cs[1].q), (120, 90, 20_000_000));
}

#[test]
fn first_bad_stationary_row_is_reported_with_its_line() {
    let e = parse_stationary_charges(b"10 10 1.0\nbad row\n", 256, 256).unwrap_err();
    assert_eq!(e.line, 2);
    assert_eq!(e.kind, ParseErrorKind::WrongFieldCount);

    let e = parse_stationary_charges(b"10 10 1.0\n1 2 3 4\n", 256, 256).unwrap_err();
    assert_eq!(e.line, 2);
    assert_eq!(e.kind, ParseErrorKind::WrongFieldCount);

    let e = parse_stationary_charges(b"zz 10 1.0\n", 256, 256).unwrap_err();
    assert_eq!(e.line, 1);
    assert_eq!(e.kind, ParseErrorKind::BadValue);

    // a coordinate outside the grid
    let e = parse_stationary_charges(b"300 10 1.0\n", 256, 256).unwrap_err();
    assert_eq!(e.line, 1);
    assert_eq!(e.kind, ParseErrorKind::BadValue);

    // a charge beyond the accepted range
    let e = parse_stationary_charges(b"10 10 5000\n", 256, 256).unwrap_err();
    assert_eq!(e.kind, ParseErrorKind::BadValue);

    // an empty row is not a comment and has no fields
    let e = parse_stationary_charges(b"10 10 1.0\n\n20 20 1.0", 256, 256).unwrap_err();
    assert_eq!(e.line, 2);
    assert_eq!(e.kind, ParseErrorKind::WrongFieldCount);
}

#[test]
fn movable_rows_parse_with_all_eight_fields() {
    let text = b"# x y q m vx vy ax ay\n160 120 -5.0 1.5 0 -2e1 0 0\n";
    let ms = parse_movable_charges(text).unwrap();
    assert_eq!(ms.len(), 1);
    let m = &ms[0];
    assert!(m.should_move && !m.collided);
    assert_eq!(m.x, 160_000_000);
    assert_eq!(m.y, 120_000_000);
    assert_eq!(m.q, -5_000_000);
    assert_eq!(m.m, 1_500_000);
    assert_eq!(m.v.x, 0);
    assert_eq!(m.v.y, -20_000_000);
    assert_eq!(m.a.x, 0);
    assert_eq!(m.a.y, 0);
}

#[test]
fn zero_mass_is_a_load_time_error() {
    let e = parse_movable_charges(b"1 1 1 0 0 0 0 0\n").unwrap_err();
    assert_eq!(e.line, 1);
    assert_eq!(e.kind, ParseErrorKind::BadValue);
    // a mass below the grid's resolution truncates to zero and is refused
    let e = parse_movable_charges(b"1 1 1 1e-19 0 0 0 0\n").unwrap_err();
    assert_eq!(e.kind, ParseErrorKind::BadValue);
    // negative mass is no better
    let e = parse_movable_charges(b"1 1 1 -1 0 0 0 0\n").unwrap_err();
    assert_eq!(e.kind, ParseErrorKind::BadValue);
}

#[test]
fn movable_row_with_wrong_field_count_is_refused() {
    let e = parse_movable_charges(b"1 1 1 1 0 0 0\n").unwrap_err();
    assert_eq!(e.line, 1);
    assert_eq!(e.kind, ParseErrorKind::WrongFieldCount);
}

#[test]
fn grid_loads_from_definition_text() {
    let g = CellGrid::new_from_text(b"# charges\n50 130 -2.5\n120 90 2e1\n", false).unwrap();
    assert_eq!(g.get_dimensions(), (256, 256));
    assert_eq!(g.stationary_charges.len(), 2);
    assert_eq!(g.cells[130][50].q, -2_500_000);
    assert_eq!(g.cells[90][120].q, 20_000_000);
    assert_eq!(g.cells[0][0].q, 0);
    assert!(!g.is_tracking_movement());
    let r = CellGrid::new_from_text(b"50 130 -2.5\noops\n", true);
    match r {
        Ok(_) => panic!("a malformed row must be refused"),
        Err(e) => assert_eq!(e.line, 2),
    }
}

#[test]
fn too_many_stationary_charges_are_refused() {
    let mut text = String::new();
    for _ in 0..10_001 {
        text.push_str("1 1 1\n");
    }
    let e = match CellGrid::new_from_text(text.as_bytes(), false) {
        Ok(_) => panic!("the grid must refuse more charges than it supports"),
        Err(e) => e,
    };
    assert_eq!(e.kind, ParseErrorKind::TooManyCharges);
    assert_eq!(e.line, 0);
}
