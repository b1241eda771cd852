//! The kinds of animation channels and samplers, and where the transforms of
//! a channel lie in the main buffer.
use crate::model::util::{AccessorLayout, AnimationProperty, ComponentType};
use vstd::prelude::*;

verus! {

/// What an animation channel changes.
#[derive(Debug, Clone, Copy, PartialEq, Eq)]
pub enum AnimationType {
    Rotation,
    Translation,
    Scale,
}

/// How a sampler interpolates between its keyframes.
#[derive(Debug, Clone, Copy, PartialEq, Eq)]
pub enum InterpolationType {
    Linear,
}

/// The interpolation that a glTF sampler names.
#[derive(Debug, Clone, Copy, PartialEq, Eq)]
pub enum SamplerInterpolation {
    Linear,
    Step,
    CubicSpline,
}

impl AnimationType {
    /// The animation type of a channel that drives `property`. A scale
    /// channel is taken as a rotation; morph target weights are not
    /// supported.
    pub fn from_property(property: &AnimationProperty) -> (r: Self)
        requires
            *property != AnimationProperty::MorphTargetWeights,
        ensures
            *property == AnimationProperty::Translation ==> r == AnimationType::Translation,
            *property == AnimationProperty::Rotation ==> r == AnimationType::Rotation,
            *property == AnimationProperty::Scale ==> r == AnimationType::Rotation,
    {
        match property {
            AnimationProperty::Translation => AnimationType::Translation,
            AnimationProperty::Rotation => AnimationType::Rotation,
            AnimationProperty::Scale => AnimationType::Rotation,
            AnimationProperty::MorphTargetWeights => {
                proof {
                    assert(false);
                }
                AnimationType::Rotation
            },
        }
    }
}

impl InterpolationType {
    /// The interpolation of a sampler; only linear interpolation is
    /// supported.
    pub fn from_interpolation(value: SamplerInterpolation) -> (r: Self)
        requires
            value == SamplerInterpolation::Linear,
        ensures
            r == InterpolationType::Linear,
    {
        InterpolationType::Linear
    }
}

/// The bytes of transform data that a channel driving `property` has per
/// keyframe: a quaternion of four `f32` for a rotation, a vector of three for
/// a translation or a scale.
pub open spec fn transform_bytes(property: AnimationProperty) -> int {
    match property {
        AnimationProperty::Rotation => 16,
        _ => 12,
    }
}

/// The transforms of a channel can be located: they are `f32`, the channel
/// drives no morph target weights, the accessor has a view into a known
/// buffer, and the offset and length fit in a `usize`.
pub open spec fn animation_transforms_defined(
    a: AccessorLayout,
    buffer_offsets: Seq<u64>,
    property: AnimationProperty,
) -> bool {
    &&& a.data_type == ComponentType::F32
    &&& property != AnimationProperty::MorphTargetWeights
    &&& a.view is Some
    &&& a.view.unwrap().buffer_index < buffer_offsets.len()
    &&& a.offset + a.view.unwrap().offset + (buffer_offsets[a.view.unwrap().buffer_index as int] as usize)
        <= usize::MAX
    &&& a.count * transform_bytes(property) <= usize::MAX
}

/// The byte offset in the main buffer of a channel's transforms, and their
/// length in bytes: the accessor's offset, plus its view's, plus that of the
/// view's buffer; and a keyframe's bytes times the number of keyframes.
pub fn get_animation_transforms(
    transforms_accessor: &AccessorLayout,
    buffer_offsets: &Vec<u64>,
    animation_type: &AnimationProperty,
) -> (r: (usize, usize))
    requires
        animation_transforms_defined(*transforms_accessor, buffer_offsets@, *animation_type),
    ensures
        ({
            let v = transforms_accessor.view.unwrap();
            r.0 == transforms_accessor.offset + v.offset + (buffer_offsets@[v.buffer_index as int] as usize)
        }),
        r.1 == transforms_accessor.count * transform_bytes(*animation_type),
{
    let length = match animation_type {
        AnimationProperty::Rotation => transforms_accessor.count * 16,
        AnimationProperty::Translation => transforms_accessor.count * 12,
        AnimationProperty::Scale => transforms_accessor.count * 12,
        AnimationProperty::MorphTargetWeights => {
            proof {
                assert(false);
            }
            0
        },
    };
    let buffer_view = transforms_accessor.view.unwrap();
    let buffer_offset = #[verifier::truncate]
    (buffer_offsets[buffer_view.buffer_index] as usize);
    let offset = transforms_accessor.offset + buffer_view.offset + buffer_offset;
    (offset, length)
}

} // verus!
