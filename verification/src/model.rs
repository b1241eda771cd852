use vstd::prelude::*;

pub mod range_splicer;
pub mod util;
pub mod primitive;
pub mod model;
pub mod animation;
pub mod draw;
pub mod loader;
pub mod materials;

verus! {

} // verus!
