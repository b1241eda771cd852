//! The transforms that one animation frame writes.
use vstd::prelude::*;

verus! {

/// The transforms of one frame: for each playing animation instance, the
/// offset of its first local transform and the mesh transforms to write
/// there, and, for each skin, the joint indices and the joint transforms.
/// `M` is the matrix type.
pub struct AnimationFrame<'a, M> {
    pub lt_offsets: Vec<usize>,
    pub mesh_transform_slices: Vec<&'a [M]>,
    pub joint_ids: Vec<&'a [usize]>,
    pub joint_transform_slices: Vec<&'a [M]>,
}

/// A playing animation of one model instance: the offset of the instance's
/// first local transform, the mesh and joint transforms that the animation
/// produced last, and the state `S` of its sampling.
pub struct AnimationInstance<M, S> {
    pub model_instance_offset: usize,
    pub mesh_transforms: Vec<M>,
    pub joint_transforms: Vec<M>,
    pub sampling: S,
}

pub struct MeshAnimationInstance;

pub struct JointAnimationInstance;

} // verus!
