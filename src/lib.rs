use vstd::prelude::*;

pub mod cell_matrix;
pub mod worker;
pub mod world;
pub mod utils;

verus! {

} // verus!
