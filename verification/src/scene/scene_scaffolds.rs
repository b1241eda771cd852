//! Descriptions of scenes to build: which files to load, which global
//! transforms to put on the first instance of a model, and which further
//! instances to add. `M` is the matrix type.
use vstd::prelude::*;

verus! {

pub struct ScaffoldGlobalTransforms<M> {
    pub transform: M,
}

/// Further instances of a model, one for each global transform.
pub struct AdditionalScaffoldModelInstances<'a, M> {
    pub model_index: usize,
    pub additional_instance_count: usize,
    pub global_transforms: &'a [M],
}

/// A global transform for the first instance of a model.
pub struct ScaffoldGTOverride<M> {
    pub transform: M,
    pub model_idx: usize,
}

pub struct SceneScaffold<'a, M> {
    pub file_paths: &'a [&'a str],
    pub additional_instances: &'a [AdditionalScaffoldModelInstances<'a, M>],
    pub global_transform_overrides: &'a [ScaffoldGTOverride<M>],
}

} // verus!
