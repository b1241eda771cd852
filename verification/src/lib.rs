//! Verified core of a glTF scene renderer.
//!
//! - `model::range_splicer`: the byte ranges of the main buffer that make up
//!   the scene's index buffer, merged primitive by primitive.
//! - `model::util`, `model::primitive`, `model::model`: copying accessor data
//!   out of the main buffer, the data of each primitive, and where each
//!   primitive's vertices and indices end up in the scene buffers.
//! - `model::draw`: the draw calls of a scene.
//! - `model::loader`: decoding embedded buffers, the offsets of the buffers,
//!   the root nodes of a scene, the mesh instances and joints of a model, and
//!   the data of a loaded file.
//! - `model::animation`: the kinds of channels and samplers, the animation
//!   tree's node types, and the queues of playing animations.
//! - `model::materials`: texture sampling settings and embedded images.
//! - `scene`: the per-instance transforms of the scene's models.
//! - `app_state`: the held keys and what a frame does with them.
use vstd::prelude::*;

pub mod app_state;
pub mod loader;
pub mod model;
pub mod scene;

verus! {

} // verus!
