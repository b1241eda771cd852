//! What a node of a model's animation tree stands for, and the sampler sets
//! attached to it, one per animation.
use std::collections::HashMap;
use vstd::prelude::*;

verus! {

/// What a node of the animation tree moves: nothing of its own, a mesh, or
/// the joint with the given index among the skin's joints.
#[derive(Debug, PartialEq, Eq, PartialOrd)]
pub enum NodeType {
    Node,
    Mesh,
    Joint(usize),
}

/// The type of node `node_index`: a joint where the joint map holds it (a
/// joint takes precedence over a mesh), else a mesh node where it has a
/// mesh, else a plain node.
pub fn node_type_of(
    node_index: usize,
    has_mesh: bool,
    joint_to_joint_indices: &HashMap<usize, usize>,
) -> (r: NodeType)
    ensures
        joint_to_joint_indices@.contains_key(node_index) ==> r == NodeType::Joint(
            joint_to_joint_indices@[node_index],
        ),
        !joint_to_joint_indices@.contains_key(node_index) && has_mesh ==> r == NodeType::Mesh,
        !joint_to_joint_indices@.contains_key(node_index) && !has_mesh ==> r == NodeType::Node,
{
    match joint_to_joint_indices.get(&node_index) {
        Some(joint_index) => NodeType::Joint(*joint_index),
        None => {
            if has_mesh {
                NodeType::Mesh
            } else {
                NodeType::Node
            }
        },
    }
}

/// The sampler sets of a node, by animation index.
pub open spec fn sampler_sets<S>(sampler_map: Option<HashMap<usize, Vec<S>>>) -> Map<usize, Vec<S>> {
    match sampler_map {
        Some(m) => m@,
        None => Map::empty(),
    }
}

/// Attaches the samplers of animation `animation_index` to a node, whose
/// sampler sets are `sampler_map`; a node gets at most one set per
/// animation.
pub fn add_sampler_set<S>(
    sampler_map: &mut Option<HashMap<usize, Vec<S>>>,
    animation_index: usize,
    samplers: Vec<S>,
)
    requires
        !sampler_sets(*old(sampler_map)).contains_key(animation_index),
    ensures
        *final(sampler_map) is Some,
        sampler_sets(*final(sampler_map)) == sampler_sets(*old(sampler_map)).insert(
            animation_index,
            samplers,
        ),
{
    match sampler_map.take() {
        Some(mut map) => {
            map.insert(animation_index, samplers);
            *sampler_map = Some(map);
        },
        None => {
            let mut new_map: HashMap<usize, Vec<S>> = HashMap::new();
            new_map.insert(animation_index, samplers);
            *sampler_map = Some(new_map);
        },
    }
}

} // verus!
