//! Airfoil geometry for panel methods: section codes, coordinate text and the
//! placement of panels on a closed boundary.
//!
//! Coordinates enter this library as integers that order as the coordinates
//! do; the arithmetic on the coordinates themselves is the caller's.
use vstd::prelude::*;
use crate::boundary::{discretizable, panel_at, Airfoil, Panel};
use crate::error::GeometryError;

pub mod ascii;
pub mod error;
pub mod naca;
pub mod boundary;
pub mod selig;

verus! {

/// The number of panels of a standard run.
pub const STANDARD_PANELS: usize = 40;

/// The standard run: places forty panels on the airfoil's boundary, ends at
/// the forty-one `targets`.
pub fn run_sim(airfoil: &Airfoil, targets: &Vec<i64>) -> (res: Result<Vec<Panel>, GeometryError>)
    ensures
        discretizable(airfoil.stations@, STANDARD_PANELS as int, targets@) <==> res.is_ok(),
        res.is_err() ==> res.unwrap_err() == GeometryError::DegenerateGeometry,
        res.is_ok() ==> res.unwrap()@.len() == STANDARD_PANELS,
        res.is_ok() ==> forall|i: int|
            0 <= i < STANDARD_PANELS ==> #[trigger] res.unwrap()@[i] == panel_at(
                airfoil.stations@,
                targets@,
                i,
            ),
{
    airfoil.define_panels(STANDARD_PANELS, targets)
}

} // verus!
