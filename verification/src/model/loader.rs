use vstd::prelude::*;

pub mod loader;
pub mod util;

verus! {

} // verus!
