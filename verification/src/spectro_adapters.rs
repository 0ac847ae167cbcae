//! One module per upstream export, each emitting a conforming input.
//!
//! An adapter reads somebody else's file and emits a file the input contract
//! describes. It scores nothing, converts no medium, and turns no published
//! grade into a number.
use vstd::prelude::*;

pub mod accuracy;
pub mod by_label;
pub mod export;
pub mod levels_accepted;
pub mod lines_accepted;
pub mod nist_asd_levels;
pub mod nist_asd_lines;
pub mod widened;

pub use accuracy::AccuracyGrade;
pub use nist_asd_lines::{Conversion, Naming, NotTaken};

verus! {

} // verus!
