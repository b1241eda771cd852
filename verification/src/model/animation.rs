//! Animation of models: the kinds of channels and samplers, the animation
//! tree's node types, the playing animations and the frames they produce.
use crate::model::animation::util::SamplerInterpolation;
use vstd::prelude::*;

pub mod animation;
pub mod animation_controller;
pub mod animation_node;
pub mod util;

verus! {

/// What an animation channel changes.
#[derive(Debug, Clone, Copy, PartialEq, Eq)]
pub enum AnimationType {
    Rotation,
    Translation,
    Scale,
}

/// How a sampler interpolates between its keyframes.
#[derive(Debug, Clone, Copy, PartialEq, Eq)]
pub enum Interpolation {
    Linear,
}

impl Interpolation {
    /// The interpolation of a sampler; only linear interpolation is
    /// supported.
    pub fn from_interpolation(value: SamplerInterpolation) -> (r: Self)
        requires
            value == SamplerInterpolation::Linear,
        ensures
            r == Interpolation::Linear,
    {
        Interpolation::Linear
    }
}

/// What a node of a model's node tree moves: nothing of its own, or a mesh.
#[derive(Debug, PartialEq, Eq)]
pub enum NodeType {
    Node,
    Mesh,
}

} // verus!
