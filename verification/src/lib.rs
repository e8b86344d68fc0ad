//! Electrostatic field simulation on a discrete 2D grid.
//!
//! Stationary point charges generate a Coulomb field; movable charges are
//! advanced through that field by an explicit semi-implicit integrator and
//! freeze in place when they collide with a stationary charge. All
//! quantities are held in fixed-point arithmetic: a stored value `v` stands
//! for the real number `v / SCALE`, and every operation is defined exactly
//! over the integers (truncating division toward zero), so each routine
//! carries a contract that pins its result down completely.
//!
//! - `helpers`: the plane-vector type and small shared utilities;
//! - `math`: floor square root, truncating division, clamping;
//! - `field`: the field model, one charge's contribution, and its bounds;
//! - `movable_charge`: movable charges and the integrator;
//! - `cellgrid`: the simulation driver and the background field map;
//! - `parse`: charge-definition text;
//! - `format`: fixed 6-decimal export text;
//! - `laws`: global laws of the model, stated and proved once.

pub mod cellgrid;
pub mod field;
pub mod format;
pub mod helpers;
pub mod laws;
pub mod math;
pub mod movable_charge;
pub mod parse;
