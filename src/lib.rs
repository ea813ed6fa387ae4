use vstd::prelude::*;

pub mod capacity;
pub mod keyed;
pub mod tags;
pub mod state;
pub mod models;
pub mod fleet;
pub mod group;
pub mod pipeline;
pub mod validation;

verus! {

} // verus!
