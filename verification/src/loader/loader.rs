//! The model type of the scene builder.
use crate::model::model::GMesh;
use vstd::prelude::*;

verus! {

/// Loads models out of glTF files; the loading itself is file input.
pub struct GltfLoader;

/// Marks a model as animated.
pub struct AnimationData;

/// A model of the scene builder: its meshes and how many times each mesh is
/// instanced within the model.
pub struct GModel2 {
    pub animation_data: Option<AnimationData>,
    pub meshes: Vec<GMesh>,
    pub mesh_instances: Vec<u32>,
}

impl GModel2 {
    pub fn new(animation_data: Option<AnimationData>, meshes: Vec<GMesh>, mesh_instances: Vec<u32>) -> (r:
        Self)
        ensures
            r.animation_data == animation_data,
            r.meshes@ == meshes@,
            r.mesh_instances@ == mesh_instances@,
    {
        Self { animation_data, meshes, mesh_instances }
    }
}

} // verus!
