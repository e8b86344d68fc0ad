//! The simulation grid: cached background field samples, the stationary
//! charges that generate the field, and the movable charges advanced
//! through it.

use vstd::prelude::*;
use crate::helpers::{SCALE, XY};
use crate::math::mag;
use crate::field::{
    GRID_LIM, CHARGES_LIM, DT_LIM, charges_ok, sc_ok, field_sum, field_term, term_at, coincides,
    dist_r2, sample_for_display, field_term_exec, TERM_LIM,
};
use crate::movable_charge::{MovableCharge, mc_ok, advance_step};
use crate::parse::{
    ParseError, ParseErrorKind, lines_of, is_comment, stationary_line_ok, stationary_values,
    stationary_line_error, parse_stationary_charges,
};

verus! {

/// Side of the square grid that charge-definition files load into.
pub const GRID_SIZE: usize = 256;

/// The charge value deposited on cell `(x, y)` by a charge list: the last
/// charge written at that coordinate wins, as the rows are applied in
/// order.
pub open spec fn deposited(cs: Seq<StationaryCharge>, x: int, y: int) -> int
    decreases cs.len(),
{
    if cs.len() == 0 {
        0
    } else if cs.last().x == x && cs.last().y == y {
        cs.last().q as int
    } else {
        deposited(cs.drop_last(), x, y)
    }
}

/// One grid point's cached field sample: the charge deposited at that
/// coordinate, the field vector, and the scalar potential (all fixed-point).
/// A cell coincident with a stationary charge holds the saturation sentinel
/// `i64::MAX` in `e` and `v`.
#[derive(Clone, Copy, PartialEq, Eq, Structural, Debug)]
pub struct Cell {
    pub q: i64,
    pub e: XY<i64>,
    pub v: i64,
}

/// A fixed point charge at integer grid coordinates, with a fixed-point
/// charge value. Created at load time; never mutated.
#[derive(Clone, Copy, PartialEq, Eq, Structural, Debug)]
pub struct StationaryCharge {
    pub x: usize,
    pub y: usize,
    pub q: i64,
}

/// A field sample for one cell: the field vector and the potential.
#[derive(Clone, Copy, PartialEq, Eq, Structural, Debug)]
pub struct CellData {
    pub intensity: XY<i64>,
    pub potential: i64,
}

/// One recorded trajectory step of a movable charge.
#[derive(Clone, Copy, PartialEq, Eq, Structural, Debug)]
pub struct MovementStep {
    pub x: i64,
    pub y: i64,
    pub v: XY<i64>,
    pub a: XY<i64>,
}

/// How many of the movable charges have collided so far.
pub open spec fn count_collided(ms: Seq<MovableCharge>) -> int
    decreases ms.len(),
{
    if ms.len() == 0 {
        0
    } else {
        count_collided(ms.drop_last()) + if ms.last().collided {
            1int
        } else {
            0int
        }
    }
}

/// The trajectory record taken from a movable charge's state.
pub open spec fn step_of(m: MovableCharge) -> MovementStep {
    MovementStep { x: m.x, y: m.y, v: m.v, a: m.a }
}

/// Whether one `step` call appends a trajectory record for a charge `m`:
/// tracking must be on, and the charge must actually move this step (it was
/// moving before and was not frozen by the step).
pub open spec fn records_step(
    m: MovableCharge,
    cs: Seq<StationaryCharge>,
    dt: int,
    track: bool,
) -> bool {
    track && m.should_move && advance_step(m, cs, dt).should_move
}

/// A cell of the background map with a fresh field sample and the charge
/// value carried over.
pub open spec fn sampled_cell(
    cs: Seq<StationaryCharge>,
    old_cell: Cell,
    x: int,
    y: int,
) -> Cell {
    let s = sample_for_display(cs, x, y);
    Cell { q: old_cell.q, e: XY { x: s.0 as i64, y: s.1 as i64 }, v: s.2 as i64 }
}

/// Net field and potential generated by the stationary charges at the grid
/// cell `(x, y)`, for background display and export. A cell occupied by a
/// charge reports the saturation sentinel rather than a meaningless value.
pub fn field_intensity_potential(
    stationary_charges: &Vec<StationaryCharge>,
    x: usize,
    y: usize,
) -> (r: CellData)
    requires
        x <= GRID_LIM,
        y <= GRID_LIM,
        charges_ok(stationary_charges@),
    ensures
        r.intensity.x == sample_for_display(stationary_charges@, x as int, y as int).0,
        r.intensity.y == sample_for_display(stationary_charges@, x as int, y as int).1,
        r.potential == sample_for_display(stationary_charges@, x as int, y as int).2,
{
    let ghost cs = stationary_charges@;
    let ghost px: int = x * SCALE;
    let ghost py: int = y * SCALE;
    let n = stationary_charges.len();
    let mut sx: i128 = 0;
    let mut sy: i128 = 0;
    let mut sv: i128 = 0;
    let mut i: usize = 0;
    while i < n
        invariant
            0 <= i <= n,
            n == cs.len(),
            cs == stationary_charges@,
            charges_ok(cs),
            x <= GRID_LIM,
            y <= GRID_LIM,
            px == x * SCALE,
            py == y * SCALE,
            forall|j: int| 0 <= j < i ==> dist_r2(#[trigger] cs[j], px, py) != 0,
            sx == field_sum(cs.take(i as int), px, py).0,
            sy == field_sum(cs.take(i as int), px, py).1,
            sv == field_sum(cs.take(i as int), px, py).2,
            mag(sx as int) <= i * TERM_LIM,
            mag(sy as int) <= i * TERM_LIM,
            mag(sv as int) <= i * TERM_LIM,
        decreases n - i,
    {
        let c = stationary_charges[i];
        proof {
            assert(sc_ok(cs[i as int]));
        }
        let dxc: i64 = x as i64 - c.x as i64;
        let dyc: i64 = y as i64 - c.y as i64;
        let dx: i64 = dxc * SCALE;
        let dy: i64 = dyc * SCALE;
        proof {
            assert(dx == px - c.x * SCALE && dy == py - c.y * SCALE);
        }
        if dxc == 0 && dyc == 0 {
            proof {
                let ddx = px - cs[i as int].x * SCALE;
                let ddy = py - cs[i as int].y * SCALE;
                assert(ddx * ddx + ddy * ddy == 0) by (nonlinear_arith)
                    requires
                        ddx == 0,
                        ddy == 0,
                ;
                assert(dist_r2(cs[i as int], px, py) == 0);
                assert(coincides(cs, px, py));
            }
            return CellData { intensity: XY { x: i64::MAX, y: i64::MAX }, potential: i64::MAX };
        }
        proof {
            assert(dx * dx + dy * dy >= SCALE * SCALE && dist_r2(cs[i as int], px, py) != 0)
                by (nonlinear_arith)
                requires
                    dx == dxc * SCALE,
                    dy == dyc * SCALE,
                    dxc != 0 || dyc != 0,
                    dist_r2(cs[i as int], px, py) == dx * dx + dy * dy,
                    SCALE > 0,
            ;
        }
        let t = field_term_exec(c.q, dx, dy);
        proof {
            assert(cs.take(i as int + 1).drop_last() =~= cs.take(i as int));
            assert(cs.take(i as int + 1).last() == cs[i as int]);
            assert(term_at(cs[i as int], px, py) == field_term(c.q as int, dx as int, dy as int));
        }
        sx = sx + t.0 as i128;
        sy = sy + t.1 as i128;
        sv = sv + t.2 as i128;
        i = i + 1;
    }
    proof {
        assert(cs.take(n as int) =~= cs);
        assert(!coincides(cs, px, py));
    }
    CellData {
        intensity: XY { x: crate::math::clamp_to_i64(sx), y: crate::math::clamp_to_i64(sy) },
        potential: crate::math::clamp_to_i64(sv),
    }
}

/// The simulation driver: owns the background grid, the stationary charges
/// and the movable charges, and advances the whole system one step at a
/// time.
pub struct CellGrid {
    pub w: usize,
    pub h: usize,
    pub cells: Vec<Vec<Cell>>,
    pub stationary_charges: Vec<StationaryCharge>,
    pub movable_charges: Vec<MovableCharge>,
    pub track_movement: bool,
    pub movement_history: Vec<Vec<MovementStep>>,
}

impl CellGrid {
    /// The driver's invariant: a rectangular grid of fixed dimensions, all
    /// charges within range (stationary ones on the grid), and one
    /// trajectory log slot per movable charge, so logs stay aligned to a
    /// fixed slot even after a charge freezes.
    pub open spec fn wf(&self) -> bool {
        &&& self.w <= GRID_LIM
        &&& self.h <= GRID_LIM
        &&& self.cells@.len() == self.h
        &&& forall|r: int| 0 <= r < self.h ==> (#[trigger] self.cells@[r])@.len() == self.w
        &&& charges_ok(self.stationary_charges@)
        &&& forall|i: int|
            0 <= i < self.stationary_charges@.len() ==> (#[trigger] self.stationary_charges@[i]).x
                < self.w && self.stationary_charges@[i].y < self.h
        &&& forall|i: int|
            0 <= i < self.movable_charges@.len() ==> mc_ok(#[trigger] self.movable_charges@[i])
        &&& self.movement_history@.len() == self.movable_charges@.len()
    }

    /// A fresh grid of `x` by `y` zeroed cells with no charges.
    pub fn new(x: usize, y: usize, save_movement: bool) -> (g: CellGrid)
        requires
            x <= GRID_LIM,
            y <= GRID_LIM,
        ensures
            g.wf(),
            g.w == x,
            g.h == y,
            g.track_movement == save_movement,
            g.stationary_charges@.len() == 0,
            g.movable_charges@.len() == 0,
            g.movement_history@.len() == 0,
            forall|r: int, c: int|
                #![trigger g.cells@[r]@[c]]
                0 <= r < y && 0 <= c < x ==> g.cells@[r]@[c] == (Cell {
                    q: 0,
                    e: XY { x: 0i64, y: 0i64 },
                    v: 0,
                }),
    {
        let mut cells: Vec<Vec<Cell>> = Vec::new();
        let mut r: usize = 0;
        while r < y
            invariant
                0 <= r <= y,
                cells@.len() == r,
                forall|rr: int| 0 <= rr < r ==> (#[trigger] cells@[rr])@.len() == x,
                forall|rr: int, cc: int|
                    #![trigger cells@[rr]@[cc]]
                    0 <= rr < r && 0 <= cc < x ==> cells@[rr]@[cc] == (Cell {
                        q: 0,
                        e: XY { x: 0i64, y: 0i64 },
                        v: 0,
                    }),
            decreases y - r,
        {
            let mut row: Vec<Cell> = Vec::new();
            let mut c: usize = 0;
            while c < x
                invariant
                    0 <= c <= x,
                    row@.len() == c,
                    forall|cc: int|
                        0 <= cc < c ==> row@[cc] == (Cell { q: 0, e: XY { x: 0i64, y: 0i64 }, v: 0 }),
                decreases x - c,
            {
                row.push(Cell { q: 0, e: XY { x: 0, y: 0 }, v: 0 });
                c = c + 1;
            }
            cells.push(row);
            r = r + 1;
        }
        CellGrid {
            w: x,
            h: y,
            cells,
            stationary_charges: Vec::new(),
            movable_charges: Vec::new(),
            track_movement: save_movement,
            movement_history: Vec::new(),
        }
    }

    /// The grid's width and height.
    pub fn get_dimensions(&self) -> (r: (usize, usize))
        ensures
            r.0 == self.w,
            r.1 == self.h,
    {
        (self.w, self.h)
    }

    /// Add one stationary charge, depositing its charge value on the cell
    /// it occupies (the background field is not resampled here; call
    /// `populate_field` for that).
    pub fn add_stationary_charge(&mut self, c: StationaryCharge)
        requires
            old(self).wf(),
            sc_ok(c),
            c.x < old(self).w,
            c.y < old(self).h,
            old(self).stationary_charges@.len() < CHARGES_LIM,
        ensures
            final(self).wf(),
            final(self).stationary_charges@ == old(self).stationary_charges@.push(c),
            final(self).cells@.len() == old(self).cells@.len(),
            forall|r: int|
                0 <= r < old(self).h ==> (#[trigger] final(self).cells@[r])@ == if r == c.y {
                    old(self).cells@[r]@.update(c.x as int, Cell { q: c.q, ..old(self).cells@[r]@[c.x as int] })
                } else {
                    old(self).cells@[r]@
                },
            final(self).w == old(self).w,
            final(self).h == old(self).h,
            final(self).movable_charges == old(self).movable_charges,
            final(self).track_movement == old(self).track_movement,
            final(self).movement_history == old(self).movement_history,
    {
        let old_cell = self.cells[c.y][c.x];
        let row = &mut self.cells[c.y];
        row[c.x] = Cell { q: c.q, ..old_cell };
        self.stationary_charges.push(c);
    }

    /// Recompute the whole background map: every cell receives the field
    /// and potential sampled at its own coordinates. A repeatable bulk
    /// operation; nothing else changes.
    pub fn populate_field(&mut self)
        requires
            old(self).wf(),
        ensures
            final(self).wf(),
            final(self).cells@.len() == old(self).h,
            forall|r: int| 0 <= r < old(self).h ==> (#[trigger] final(self).cells@[r])@.len() == old(self).w,
            forall|r: int, c: int|
                #![trigger final(self).cells@[r]@[c]]
                0 <= r < old(self).h && 0 <= c < old(self).w ==> final(self).cells@[r]@[c]
                    == sampled_cell(old(self).stationary_charges@, old(self).cells@[r]@[c], c, r),
            final(self).w == old(self).w,
            final(self).h == old(self).h,
            final(self).stationary_charges == old(self).stationary_charges,
            final(self).movable_charges == old(self).movable_charges,
            final(self).track_movement == old(self).track_movement,
            final(self).movement_history == old(self).movement_history,
    {
        let ghost cs = self.stationary_charges@;
        let ghost old_cells = self.cells@;
        let mut new_cells: Vec<Vec<Cell>> = Vec::new();
        let mut r: usize = 0;
        while r < self.h
            invariant
                0 <= r <= self.h,
                *self == *old(self),
                old(self).wf(),
                cs == self.stationary_charges@,
                old_cells == self.cells@,
                new_cells@.len() == r,
                forall|rr: int| 0 <= rr < r ==> (#[trigger] new_cells@[rr])@.len() == self.w,
                forall|rr: int, cc: int|
                    #![trigger new_cells@[rr]@[cc]]
                    0 <= rr < r && 0 <= cc < self.w ==> new_cells@[rr]@[cc]
                        == sampled_cell(cs, old_cells[rr]@[cc], cc, rr),
            decreases self.h - r,
        {
            let mut row: Vec<Cell> = Vec::new();
            let mut c: usize = 0;
            while c < self.w
                invariant
                    0 <= c <= self.w,
                    0 <= r < self.h,
                    *self == *old(self),
                    old(self).wf(),
                    cs == self.stationary_charges@,
                    old_cells == self.cells@,
                    row@.len() == c,
                    forall|cc: int|
                        0 <= cc < c ==> row@[cc] == sampled_cell(cs, old_cells[r as int]@[cc], cc, r as int),
                decreases self.w - c,
            {
                let cd = field_intensity_potential(&self.stationary_charges, c, r);
                let oldq = self.cells[r][c].q;
                row.push(Cell { q: oldq, e: cd.intensity, v: cd.potential });
                c = c + 1;
            }
            new_cells.push(row);
            r = r + 1;
        }
        self.cells = new_cells;
    }

    /// Add one movable charge; its trajectory log slot is created empty.
    pub fn add_movable_charge(&mut self, charge: MovableCharge)
        requires
            old(self).wf(),
            mc_ok(charge),
        ensures
            final(self).wf(),
            final(self).movable_charges@ == old(self).movable_charges@.push(charge),
            final(self).movement_history@.len() == old(self).movement_history@.len() + 1,
            forall|i: int|
                0 <= i < old(self).movement_history@.len() ==> (#[trigger] final(self).movement_history@[i])@ == old(self).movement_history@[i]@,
            final(self).movement_history@.last()@.len() == 0,
            final(self).w == old(self).w,
            final(self).h == old(self).h,
            final(self).cells == old(self).cells,
            final(self).stationary_charges == old(self).stationary_charges,
            final(self).track_movement == old(self).track_movement,
    {
        self.movable_charges.push(charge);
        self.movement_history.push(Vec::new());
    }

    /// Advance every movable charge by one step of length `delta_t`.
    ///
    /// Each charge is updated independently against the stationary charges
    /// only, exactly as `advance_step` describes: frozen charges are left
    /// untouched, a charge that comes within the collision distance is
    /// frozen with `collided` set, and the rest take one semi-implicit
    /// integration step. When tracking is on, each charge that actually
    /// moved appends its new state to its own trajectory log.
    pub fn update_movable_charges(&mut self, delta_t: i64)
        requires
            old(self).wf(),
            0 < delta_t <= DT_LIM,
        ensures
            final(self).wf(),
            final(self).movable_charges@.len() == old(self).movable_charges@.len(),
            forall|i: int|
                0 <= i < old(self).movable_charges@.len() ==> (#[trigger] final(self).movable_charges@[i])
                    == advance_step(
                    old(self).movable_charges@[i],
                    old(self).stationary_charges@,
                    delta_t as int,
                ),
            final(self).movement_history@.len() == old(self).movement_history@.len(),
            forall|i: int|
                0 <= i < old(self).movable_charges@.len() ==> (#[trigger] final(self).movement_history@[i])@
                    == if records_step(
                    old(self).movable_charges@[i],
                    old(self).stationary_charges@,
                    delta_t as int,
                    old(self).track_movement,
                ) {
                    old(self).movement_history@[i]@.push(
                        step_of(
                            advance_step(
                                old(self).movable_charges@[i],
                                old(self).stationary_charges@,
                                delta_t as int,
                            ),
                        ),
                    )
                } else {
                    old(self).movement_history@[i]@
                },
            final(self).w == old(self).w,
            final(self).h == old(self).h,
            final(self).cells == old(self).cells,
            final(self).stationary_charges == old(self).stationary_charges,
            final(self).track_movement == old(self).track_movement,
    {
        let ghost cs = self.stationary_charges@;
        let ghost dt: int = delta_t as int;
        let ghost old_mc = self.movable_charges@;
        let ghost old_hist = self.movement_history@;
        let n = self.movable_charges.len();
        let mut i: usize = 0;
        while i < n
            invariant
                0 <= i <= n,
                old(self).wf(),
                n == old_mc.len(),
                cs == old(self).stationary_charges@,
                dt == delta_t as int,
                0 < delta_t <= DT_LIM,
                old_mc == old(self).movable_charges@,
                old_hist == old(self).movement_history@,
                self.w == old(self).w,
                self.h == old(self).h,
                self.cells == old(self).cells,
                self.stationary_charges == old(self).stationary_charges,
                self.track_movement == old(self).track_movement,
                self.movable_charges@.len() == n,
                self.movement_history@.len() == n,
                forall|j: int|
                    i <= j < n ==> (#[trigger] self.movable_charges@[j]) == old_mc[j],
                forall|j: int|
                    0 <= j < i ==> (#[trigger] self.movable_charges@[j]) == advance_step(old_mc[j], cs, dt),
                forall|j: int| i <= j < n ==> (#[trigger] self.movement_history@[j])@ == old_hist[j]@,
                forall|j: int|
                    0 <= j < i ==> (#[trigger] self.movement_history@[j])@ == if records_step(
                        old_mc[j],
                        cs,
                        dt,
                        old(self).track_movement,
                    ) {
                        old_hist[j]@.push(step_of(advance_step(old_mc[j], cs, dt)))
                    } else {
                        old_hist[j]@
                    },
            decreases n - i,
        {
            let mut c = self.movable_charges[i];
            let was_moving = c.should_move;
            proof {
                assert(mc_ok(old_mc[i as int]));
            }
            c.advance(&self.stationary_charges, delta_t);
            self.movable_charges[i] = c;
            if self.track_movement && was_moving && c.should_move {
                let step = MovementStep { x: c.x, y: c.y, v: c.v, a: c.a };
                self.movement_history[i].push(step);
            }
            i = i + 1;
        }
    }

    /// Turn trajectory tracking on or off. Turning it on resets every
    /// charge's log to an empty one.
    pub fn set_movement_tracking(&mut self, b: bool)
        requires
            old(self).wf(),
        ensures
            final(self).wf(),
            final(self).track_movement == b,
            b ==> final(self).movement_history@.len() == old(self).movable_charges@.len()
                && forall|i: int|
                0 <= i < old(self).movable_charges@.len() ==> (#[trigger] final(self).movement_history@[i])@.len() == 0,
            !b ==> final(self).movement_history == old(self).movement_history,
            final(self).w == old(self).w,
            final(self).h == old(self).h,
            final(self).cells == old(self).cells,
            final(self).stationary_charges == old(self).stationary_charges,
            final(self).movable_charges == old(self).movable_charges,
    {
        self.track_movement = b;
        if b {
            let n = self.movable_charges.len();
            let mut fresh: Vec<Vec<MovementStep>> = Vec::new();
            let mut i: usize = 0;
            while i < n
                invariant
                    0 <= i <= n,
                    fresh@.len() == i,
                    forall|j: int| 0 <= j < i ==> (#[trigger] fresh@[j])@.len() == 0,
                decreases n - i,
            {
                fresh.push(Vec::new());
                i = i + 1;
            }
            self.movement_history = fresh;
        }
    }

    /// How many movable charges the driver owns (charges are frozen in
    /// place, never removed, so this only grows).
    pub fn movable_charge_count(&self) -> (r: usize)
        ensures
            r == self.movable_charges@.len(),
    {
        self.movable_charges.len()
    }

    /// How many stationary charges generate the field.
    pub fn stationary_charge_count(&self) -> (r: usize)
        ensures
            r == self.stationary_charges@.len(),
    {
        self.stationary_charges.len()
    }

    /// How many movable charges have collided with a stationary charge.
    pub fn collision_count(&self) -> (r: usize)
        ensures
            r == count_collided(self.movable_charges@),
    {
        let ghost ms = self.movable_charges@;
        let n = self.movable_charges.len();
        let mut count: usize = 0;
        let mut i: usize = 0;
        while i < n
            invariant
                0 <= i <= n,
                n == ms.len(),
                ms == self.movable_charges@,
                count == count_collided(ms.take(i as int)),
                count <= i,
            decreases n - i,
        {
            proof {
                assert(ms.take(i as int + 1).drop_last() =~= ms.take(i as int));
                assert(ms.take(i as int + 1).last() == ms[i as int]);
            }
            if self.movable_charges[i].collided {
                count = count + 1;
            }
            i = i + 1;
        }
        proof {
            assert(ms.take(n as int) =~= ms);
        }
        count
    }

    /// Whether trajectory tracking is on.
    pub fn is_tracking_movement(&self) -> (r: bool)
        ensures
            r == self.track_movement,
    {
        self.track_movement
    }

    /// The per-charge trajectory logs, one slot per movable charge.
    /// Flushing the logs while tracking was never enabled is a usage error,
    /// so tracking is required here.
    pub fn movement_history(&self) -> (h: &Vec<Vec<MovementStep>>)
        requires
            self.track_movement,
        ensures
            h == &self.movement_history,
    {
        &self.movement_history
    }

    /// A `GRID_SIZE` by `GRID_SIZE` grid loaded from the text of a
    /// stationary-charge definition file. Each row's charge is deposited on
    /// its cell; the background field itself is not sampled here. The first
    /// malformed row, and a file with more charges than the grid supports,
    /// are load-time errors.
    pub fn new_from_text(text: &[u8], save_movement: bool) -> (r: Result<CellGrid, ParseError>)
        ensures
            match r {
                Ok(g) => {
                    &&& forall|j: int|
                        0 <= j < lines_of(text@).len() ==> is_comment(#[trigger] lines_of(text@)[j])
                            || stationary_line_ok(
                            lines_of(text@)[j],
                            GRID_SIZE as int,
                            GRID_SIZE as int,
                        )
                    &&& g.wf()
                    &&& g.w == GRID_SIZE
                    &&& g.h == GRID_SIZE
                    &&& g.track_movement == save_movement
                    &&& g.stationary_charges@ == stationary_values(lines_of(text@))
                    &&& g.stationary_charges@.len() <= CHARGES_LIM
                    &&& g.movable_charges@.len() == 0
                    &&& g.movement_history@.len() == 0
                    &&& forall|rr: int, cc: int|
                        #![trigger g.cells@[rr]@[cc]]
                        0 <= rr < GRID_SIZE && 0 <= cc < GRID_SIZE ==> g.cells@[rr]@[cc] == (Cell {
                            q: deposited(g.stationary_charges@, cc, rr) as i64,
                            e: XY { x: 0i64, y: 0i64 },
                            v: 0,
                        })
                },
                Err(e) => {
                    ||| {
                        &&& 1 <= e.line <= lines_of(text@).len()
                        &&& !is_comment(lines_of(text@)[e.line - 1])
                        &&& !stationary_line_ok(
                            lines_of(text@)[e.line - 1],
                            GRID_SIZE as int,
                            GRID_SIZE as int,
                        )
                        &&& e.kind == stationary_line_error(lines_of(text@)[e.line - 1])
                    }
                    ||| {
                        &&& e.line == 0
                        &&& e.kind == ParseErrorKind::TooManyCharges
                        &&& stationary_values(lines_of(text@)).len() > CHARGES_LIM
                    }
                },
            },
    {
        let cs = match parse_stationary_charges(text, GRID_SIZE, GRID_SIZE) {
            Err(e) => {
                return Err(e);
            },
            Ok(cs) => cs,
        };
        let n = cs.len();
        if n > CHARGES_LIM {
            return Err(ParseError { line: 0, kind: ParseErrorKind::TooManyCharges });
        }
        let mut g = CellGrid::new(GRID_SIZE, GRID_SIZE, save_movement);
        let mut i: usize = 0;
        while i < n
            invariant
                0 <= i <= n <= CHARGES_LIM,
                n == cs@.len(),
                forall|k: int|
                    0 <= k < n ==> sc_ok(#[trigger] cs@[k]) && cs@[k].x < GRID_SIZE && cs@[k].y
                        < GRID_SIZE,
                g.wf(),
                g.w == GRID_SIZE,
                g.h == GRID_SIZE,
                g.track_movement == save_movement,
                g.stationary_charges@ == cs@.take(i as int),
                g.movable_charges@.len() == 0,
                g.movement_history@.len() == 0,
                forall|rr: int, cc: int|
                    #![trigger g.cells@[rr]@[cc]]
                    0 <= rr < GRID_SIZE && 0 <= cc < GRID_SIZE ==> g.cells@[rr]@[cc] == (Cell {
                        q: deposited(cs@.take(i as int), cc, rr) as i64,
                        e: XY { x: 0i64, y: 0i64 },
                        v: 0,
                    }),
            decreases n - i,
        {
            let c = cs[i];
            proof {
                assert(sc_ok(cs@[i as int]));
                assert(cs@.take(i as int + 1).drop_last() =~= cs@.take(i as int));
                assert(cs@.take(i as int + 1).last() == cs@[i as int]);
            }
            g.add_stationary_charge(c);
            i = i + 1;
        }
        proof {
            assert(cs@.take(n as int) =~= cs@);
        }
        Ok(g)
    }
}

} // verus!
