//! Fixed 6-decimal text export of grid samples and trajectories.
//!
//! Every number is written exactly: the integer part in decimal, a point,
//! and the six fixed-point fraction digits, with a leading minus sign for
//! negative values.

use vstd::prelude::*;
use crate::math::{mag, sqrt_floor, isqrt};
use crate::helpers::{SCALE, XY};
use crate::parse::p10;
use crate::cellgrid::{Cell, MovementStep};

verus! {

/// Decimal digits of `n`, most significant first (`0` stays one digit).
pub open spec fn digits_of(n: nat) -> Seq<u8>
    decreases n,
{
    if n < 10 {
        seq![(48 + n) as u8]
    } else {
        digits_of(n / 10) + seq![(48 + n % 10) as u8]
    }
}

/// The six fraction digits of a fixed-point remainder `f < SCALE`,
/// zero-padded: digit `i` is `f / 10^(5-i) mod 10`.
pub open spec fn frac6(f: nat) -> Seq<u8> {
    Seq::new(6, |i: int| (48 + ((f as int / p10((5 - i) as nat)) % 10)) as u8)
}

/// A nonnegative fixed-point magnitude written with six decimals.
pub open spec fn fmt_mag(m: nat) -> Seq<u8> {
    digits_of(m / (SCALE as nat)) + seq![46u8] + frac6(m % (SCALE as nat))
}

/// A fixed-point value written with six decimals and an optional sign.
pub open spec fn fmt_scaled_spec(v: int) -> Seq<u8> {
    if v < 0 {
        seq![45u8] + fmt_mag((-v) as nat)
    } else {
        fmt_mag(v as nat)
    }
}

/// Append the decimal digits of `n`.
fn push_digits(out: &mut Vec<u8>, n: u64)
    ensures
        final(out)@ == old(out)@ + digits_of(n as nat),
    decreases n,
{
    if n < 10 {
        out.push(48 + n as u8);
        proof {
            assert(out@ =~= old(out)@ + digits_of(n as nat));
        }
    } else {
        push_digits(out, n / 10);
        out.push(48 + (n % 10) as u8);
        proof {
            assert(out@ =~= old(out)@ + digits_of(n as nat));
        }
    }
}

/// Append a nonnegative fixed-point magnitude with six decimals.
fn push_mag(out: &mut Vec<u8>, m: u64)
    ensures
        final(out)@ == old(out)@ + fmt_mag(m as nat),
{
    push_digits(out, m / 1_000_000);
    out.push(46);
    let f: u64 = m % 1_000_000;
    let mut i: usize = 0;
    let ghost base = out@;
    while i < 6
        invariant
            0 <= i <= 6,
            f < 1_000_000,
            out@ == base + frac6(f as nat).take(i as int),
        decreases 6 - i,
    {
        proof {
            reveal_with_fuel(p10, 7);
            crate::parse::lemma_p10_pos((5 - i) as nat);
        }
        let p: u64 = crate::parse::pow10_u64(5 - i);
        let d: u64 = (f / p) % 10;
        out.push(48 + d as u8);
        proof {
            assert(out@ =~= base + frac6(f as nat).take(i as int + 1));
        }
        i = i + 1;
    }
    proof {
        assert(frac6(f as nat).take(6) =~= frac6(f as nat));
        assert(out@ =~= old(out)@ + fmt_mag(m as nat));
    }
}

/// Append a fixed-point value with six decimals and an optional sign.
pub fn push_scaled(out: &mut Vec<u8>, v: i64)
    requires
        v > i64::MIN,
    ensures
        final(out)@ == old(out)@ + fmt_scaled_spec(v as int),
{
    if v < 0 {
        out.push(45);
        push_mag(out, (-v) as u64);
        proof {
            assert(out@ =~= old(out)@ + fmt_scaled_spec(v as int));
        }
    } else {
        push_mag(out, v as u64);
    }
}

/// The exported text of one grid cell at `(x, y)`: the cell coordinates,
/// the deposited charge, the field vector, its magnitude, and the
/// potential, comma-separated with six decimals, ending the line.
pub open spec fn line_of_cell(x: int, y: int, cell: Cell) -> Seq<u8> {
    digits_of(x as nat) + seq![44u8, 32u8] + digits_of(y as nat) + seq![44u8, 32u8]
        + fmt_scaled_spec(cell.q as int) + seq![44u8, 32u8] + fmt_scaled_spec(cell.e.x as int)
        + seq![44u8, 32u8] + fmt_scaled_spec(cell.e.y as int) + seq![44u8, 32u8] + fmt_mag(
        sqrt_floor((cell.e.x * cell.e.x + cell.e.y * cell.e.y) as nat),
    ) + seq![44u8, 32u8] + fmt_scaled_spec(cell.v as int) + seq![10u8]
}

/// The exported text of one row of cells at height `y`.
pub open spec fn row_export(row: Seq<Cell>, y: int) -> Seq<u8>
    decreases row.len(),
{
    if row.len() == 0 {
        Seq::empty()
    } else {
        row_export(row.drop_last(), y) + line_of_cell(row.len() - 1, y, row.last())
    }
}

/// The exported text of a whole grid of cells, row by row.
pub open spec fn grid_export(cells: Seq<Seq<Cell>>) -> Seq<u8>
    decreases cells.len(),
{
    if cells.len() == 0 {
        Seq::empty()
    } else {
        grid_export(cells.drop_last()) + row_export(cells.last(), cells.len() - 1)
    }
}

/// Append one cell's export line.
#[verifier::rlimit(100)]
#[verifier::spinoff_prover]
fn push_cell_line(out: &mut Vec<u8>, x: usize, y: usize, cell: Cell)
    requires
        cell.q > i64::MIN,
        cell.e.x > i64::MIN,
        cell.e.y > i64::MIN,
        cell.v > i64::MIN,
    ensures
        final(out)@ == old(out)@ + line_of_cell(x as int, y as int, cell),
{
    push_digits(out, x as u64);
    out.push(44);
    out.push(32);
    push_digits(out, y as u64);
    out.push(44);
    out.push(32);
    push_scaled(out, cell.q);
    out.push(44);
    out.push(32);
    push_scaled(out, cell.e.x);
    out.push(44);
    out.push(32);
    push_scaled(out, cell.e.y);
    out.push(44);
    out.push(32);
    let exa: u64 = if cell.e.x < 0 {
        (-cell.e.x) as u64
    } else {
        cell.e.x as u64
    };
    let eya: u64 = if cell.e.y < 0 {
        (-cell.e.y) as u64
    } else {
        cell.e.y as u64
    };
    proof {
        vstd::arithmetic::mul::lemma_mul_upper_bound(
            exa as int,
            0x8000_0000_0000_0000 - 1,
            exa as int,
            0x8000_0000_0000_0000 - 1,
        );
        vstd::arithmetic::mul::lemma_mul_upper_bound(
            eya as int,
            0x8000_0000_0000_0000 - 1,
            eya as int,
            0x8000_0000_0000_0000 - 1,
        );
    }
    let r2: u128 = (exa as u128) * (exa as u128) + (eya as u128) * (eya as u128);
    proof {
        assert(r2 == cell.e.x * cell.e.x + cell.e.y * cell.e.y) by (nonlinear_arith)
            requires
                exa == mag(cell.e.x as int),
                eya == mag(cell.e.y as int),
                r2 == exa * exa + eya * eya,
        ;
    }
    let len = isqrt(r2);
    push_mag_u128(out, len);
    out.push(44);
    out.push(32);
    push_scaled(out, cell.v);
    out.push(10);
    proof {
        assert(out@ =~= old(out)@ + line_of_cell(x as int, y as int, cell));
    }
}

/// Append a nonnegative wide fixed-point magnitude with six decimals (the
/// field-vector magnitude can exceed the signed range).
fn push_mag_u128(out: &mut Vec<u8>, m: u128)
    ensures
        final(out)@ == old(out)@ + fmt_mag(m as nat),
{
    push_digits_u128(out, m / 1_000_000);
    out.push(46);
    let f: u64 = (m % 1_000_000) as u64;
    let mut i: usize = 0;
    let ghost base = out@;
    while i < 6
        invariant
            0 <= i <= 6,
            f < 1_000_000,
            f == m as nat % (SCALE as nat),
            out@ == base + frac6(f as nat).take(i as int),
        decreases 6 - i,
    {
        proof {
            reveal_with_fuel(p10, 7);
            crate::parse::lemma_p10_pos((5 - i) as nat);
        }
        let p: u64 = crate::parse::pow10_u64(5 - i);
        let d: u64 = (f / p) % 10;
        out.push(48 + d as u8);
        proof {
            assert(out@ =~= base + frac6(f as nat).take(i as int + 1));
        }
        i = i + 1;
    }
    proof {
        assert(frac6(f as nat).take(6) =~= frac6(f as nat));
        assert(out@ =~= old(out)@ + fmt_mag(m as nat));
    }
}

/// Append the decimal digits of a wide value.
fn push_digits_u128(out: &mut Vec<u8>, n: u128)
    ensures
        final(out)@ == old(out)@ + digits_of(n as nat),
    decreases n,
{
    if n < 10 {
        out.push(48 + n as u8);
        proof {
            assert(out@ =~= old(out)@ + digits_of(n as nat));
        }
    } else {
        push_digits_u128(out, n / 10);
        out.push(48 + (n % 10) as u8);
        proof {
            assert(out@ =~= old(out)@ + digits_of(n as nat));
        }
    }
}

/// The exported text of one recorded trajectory step: position, velocity
/// and acceleration with six decimals, ending the line.
pub open spec fn line_of_step(s: MovementStep) -> Seq<u8> {
    fmt_scaled_spec(s.x as int) + seq![44u8, 32u8] + fmt_scaled_spec(s.y as int) + seq![44u8, 32u8]
        + fmt_scaled_spec(s.v.x as int) + seq![44u8, 32u8] + fmt_scaled_spec(s.v.y as int) + seq![
        44u8,
        32u8,
    ] + fmt_scaled_spec(s.a.x as int) + seq![44u8, 32u8] + fmt_scaled_spec(s.a.y as int) + seq![
        10u8,
    ]
}

/// The exported text of a trajectory log, one line per recorded step.
pub open spec fn movement_export(steps: Seq<MovementStep>) -> Seq<u8>
    decreases steps.len(),
{
    if steps.len() == 0 {
        Seq::empty()
    } else {
        movement_export(steps.drop_last()) + line_of_step(steps.last())
    }
}

/// One trajectory log as export text, one `x, y, vx, vy, ax, ay` line per
/// recorded step, with six decimals.
#[verifier::rlimit(60)]
pub fn movement_to_text(steps: &Vec<MovementStep>) -> (r: Vec<u8>)
    requires
        forall|i: int|
            0 <= i < steps@.len() ==> (#[trigger] steps@[i]).x > i64::MIN && steps@[i].y > i64::MIN
                && steps@[i].v.x > i64::MIN && steps@[i].v.y > i64::MIN && steps@[i].a.x > i64::MIN
                && steps@[i].a.y > i64::MIN,
    ensures
        r@ == movement_export(steps@),
{
    let mut out: Vec<u8> = Vec::new();
    let n = steps.len();
    let mut i: usize = 0;
    while i < n
        invariant
            0 <= i <= n,
            n == steps@.len(),
            forall|k: int|
                0 <= k < n ==> (#[trigger] steps@[k]).x > i64::MIN && steps@[k].y > i64::MIN
                    && steps@[k].v.x > i64::MIN && steps@[k].v.y > i64::MIN && steps@[k].a.x
                    > i64::MIN && steps@[k].a.y > i64::MIN,
            out@ == movement_export(steps@.take(i as int)),
        decreases n - i,
    {
        let s = steps[i];
        proof {
            assert(steps@.take(i as int + 1).drop_last() =~= steps@.take(i as int));
            assert(steps@.take(i as int + 1).last() == steps@[i as int]);
        }
        push_scaled(&mut out, s.x);
        out.push(44);
        out.push(32);
        push_scaled(&mut out, s.y);
        out.push(44);
        out.push(32);
        push_scaled(&mut out, s.v.x);
        out.push(44);
        out.push(32);
        push_scaled(&mut out, s.v.y);
        out.push(44);
        out.push(32);
        push_scaled(&mut out, s.a.x);
        out.push(44);
        out.push(32);
        push_scaled(&mut out, s.a.y);
        out.push(10);
        proof {
            assert(out@ =~= movement_export(steps@.take(i as int + 1)));
        }
        i = i + 1;
    }
    proof {
        assert(steps@.take(n as int) =~= steps@);
    }
    out
}

/// A whole grid of cells as export text: one
/// `x, y, q, Ex, Ey, |E|, V` line per cell, row by row, with six decimals.
#[verifier::rlimit(60)]
pub fn grid_to_text(cells: &Vec<Vec<Cell>>) -> (r: Vec<u8>)
    requires
        forall|rr: int, cc: int|
            #![trigger cells@[rr]@[cc]]
            0 <= rr < cells@.len() && 0 <= cc < cells@[rr]@.len() ==> cells@[rr]@[cc].q > i64::MIN
                && cells@[rr]@[cc].e.x > i64::MIN && cells@[rr]@[cc].e.y > i64::MIN
                && cells@[rr]@[cc].v > i64::MIN,
    ensures
        r@ == grid_export(cells@.map_values(|row: Vec<Cell>| row@)),
{
    let ghost view = cells@.map_values(|row: Vec<Cell>| row@);
    let mut out: Vec<u8> = Vec::new();
    let n = cells.len();
    let mut y: usize = 0;
    while y < n
        invariant
            0 <= y <= n,
            n == cells@.len(),
            view == cells@.map_values(|row: Vec<Cell>| row@),
            forall|rr: int, cc: int|
                #![trigger cells@[rr]@[cc]]
                0 <= rr < cells@.len() && 0 <= cc < cells@[rr]@.len() ==> cells@[rr]@[cc].q
                    > i64::MIN && cells@[rr]@[cc].e.x > i64::MIN && cells@[rr]@[cc].e.y > i64::MIN
                    && cells@[rr]@[cc].v > i64::MIN,
            out@ == grid_export(view.take(y as int)),
        decreases n - y,
    {
        let row = &cells[y];
        let w = row.len();
        let mut x: usize = 0;
        proof {
            assert(view.take(y as int + 1).drop_last() =~= view.take(y as int));
            assert(view.take(y as int + 1).last() == view[y as int]);
        }
        let ghost row_base = out@;
        while x < w
            invariant
                0 <= x <= w,
                0 <= y < n,
                n == cells@.len(),
                w == cells@[y as int]@.len(),
                row@ == cells@[y as int]@,
                view == cells@.map_values(|row: Vec<Cell>| row@),
                forall|rr: int, cc: int|
                    #![trigger cells@[rr]@[cc]]
                    0 <= rr < cells@.len() && 0 <= cc < cells@[rr]@.len() ==> cells@[rr]@[cc].q
                        > i64::MIN && cells@[rr]@[cc].e.x > i64::MIN && cells@[rr]@[cc].e.y
                        > i64::MIN && cells@[rr]@[cc].v > i64::MIN,
                out@ == row_base + row_export(view[y as int].take(x as int), y as int),
            decreases w - x,
        {
            let cell = row[x];
            proof {
                assert(view[y as int].take(x as int + 1).drop_last() =~= view[y as int].take(
                    x as int,
                ));
                assert(view[y as int].take(x as int + 1).last() == view[y as int][x as int]);
                assert(cell == cells@[y as int]@[x as int]);
            }
            push_cell_line(&mut out, x, y, cell);
            proof {
                assert(out@ =~= row_base + row_export(view[y as int].take(x as int + 1), y as int));
            }
            x = x + 1;
        }
        proof {
            assert(view[y as int].take(w as int) =~= view[y as int]);
            assert(out@ =~= grid_export(view.take(y as int + 1)));
        }
        y = y + 1;
    }
    proof {
        assert(view.take(n as int) =~= view);
    }
    out
}

} // verus!
