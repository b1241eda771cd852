use vstd::prelude::*;

pub mod instances;
pub mod instances2;
pub mod scene;
pub mod scene_scaffolds;
pub mod util;

verus! {

} // verus!
