//! Assignment of spectral lines to level transitions: the input contract's
//! readers and validator, the adapters that emit conforming inputs from
//! upstream exports, and the assignment object itself.
use vstd::prelude::*;

pub mod assoc_model;
pub mod number;
pub mod spectro_adapters;
pub mod spectro_contract;
pub mod text;
pub mod utf8;

verus! {

} // verus!
