//! What loading a glTF file gives: its models, its binary data, the
//! primitive data of each model, and the local and joint transforms of all
//! models one after the other.
use crate::model::loader::util::{JointDataView, ModelData};
use crate::model::model::{
    GMesh, GModel, JointAnimationData, LocalTransform, MeshAnimationData, ModelAnimationData,
};
use crate::model::primitive::PrimitiveData;
use std::rc::Rc;
use vstd::prelude::*;

verus! {

/// Loads the models of a glTF file; the loading itself is file input.
pub struct GltfLoader;

/// The primitive data of the model rooted at node `model_id`.
pub struct ModelPrimitiveData {
    pub model_id: usize,
    pub primitive_data: Vec<PrimitiveData>,
}

/// The data of a loaded glTF file. `N` is the type of the models' animation
/// trees, `M` the matrix type and `K` that of the skins' inverse bind
/// matrices.
pub struct GltfData<N, M, K> {
    pub models: Vec<GModel<N>>,
    pub binary_data: Vec<u8>,
    pub model_primitive_data: Vec<ModelPrimitiveData>,
    pub local_transforms: Vec<LocalTransform<M>>,
    pub joint_transforms: Vec<M>,
    pub skin_ibms: K,
}

/// The animations of a loaded model: the root of its animation tree, how
/// many animations it counts, and which of them move its meshes.
pub struct ModelAnimations<N> {
    pub animation_node: Rc<N>,
    pub animation_count: usize,
    pub mesh_animations: Vec<usize>,
}

/// The index of each joint among the skins' joints, in the order in which
/// the joints were met.
pub open spec fn joint_indices_of<M>(jv: JointDataView<M>) -> Seq<usize> {
    jv.ids.map_values(|n: usize| jv.joint_map[n])
}

fn joint_indices(joint_ids: &Vec<usize>, joint_map: &std::collections::HashMap<usize, usize>) -> (r: Vec<
    usize,
>)
    requires
        forall|i: int| 0 <= i < joint_ids@.len() ==> joint_map@.contains_key(#[trigger] joint_ids@[i]),
    ensures
        r@ == joint_ids@.map_values(|n: usize| joint_map@[n]),
{
    let mut indices: Vec<usize> = Vec::new();
    let n = joint_ids.len();
    let mut i: usize = 0;
    while i < n
        invariant
            i <= n,
            n == joint_ids@.len(),
            forall|q: int| 0 <= q < joint_ids@.len() ==> joint_map@.contains_key(#[trigger] joint_ids@[q]),
            indices@ == joint_ids@.map_values(|n: usize| joint_map@[n]).take(i as int),
        decreases n - i,
    {
        let id = joint_ids[i];
        proof {
            assert(joint_map@.contains_key(joint_ids@[i as int]));
        }
        match joint_map.get(&id) {
            Some(index) => {
                indices.push(*index);
            },
            None => {
                proof {
                    assert(false);
                }
            },
        }
        proof {
            assert(indices@ =~= joint_ids@.map_values(|n: usize| joint_map@[n]).take(i + 1));
        }
        i += 1;
    }
    proof {
        assert(joint_ids@.map_values(|n: usize| joint_map@[n]).take(n as int) =~= joint_ids@.map_values(
            |n: usize| joint_map@[n],
        ));
    }
    indices
}

fn append_all<M: Copy>(out: &mut Vec<M>, items: &Vec<M>)
    ensures
        final(out)@ == old(out)@ + items@,
{
    let count = items.len();
    let mut i: usize = 0;
    while i < count
        invariant
            i <= count,
            count == items@.len(),
            out@ == old(out)@ + items@.take(i as int),
        decreases count - i,
    {
        out.push(items[i]);
        proof {
            assert(items@.take(i + 1) =~= items@.take(i as int).push(items@[i as int]));
        }
        i += 1;
    }
    proof {
        assert(items@.take(count as int) =~= items@);
    }
}

impl<N, M: Copy, K> GltfData<N, M, K> {
    /// Adds the model rooted at node `model_id`: its meshes and their
    /// primitive data, its mesh instance counts, and, where it is animated,
    /// its animation data, which is skeletal when it has joints. Its local
    /// transforms, group after group, and its joint poses follow those of the
    /// models before it.
    pub fn add_model(
        &mut self,
        model_id: usize,
        model_data: ModelData<M>,
        meshes: Vec<GMesh>,
        primitive_data: Vec<PrimitiveData>,
        animations: Option<ModelAnimations<N>>,
    )
        requires
            forall|i: int|
                0 <= i < model_data.joint_data@.ids.len() ==> model_data.joint_data@.joint_map.contains_key(
                    #[trigger] model_data.joint_data@.ids[i],
                ),
        ensures
            final(self).models@.len() == old(self).models@.len() + 1,
            final(self).models@.drop_last() == old(self).models@,
            ({
                let m = final(self).models@.last();
                let joint_map = model_data.joint_data.joint_to_joint_index_map;
                &&& m.model_id == model_id
                &&& m.meshes@ == meshes@
                &&& m.mesh_instances == model_data.mesh_data.mesh_instances
                &&& animations is None ==> m.animation_data is None
                &&& animations matches Some(a) ==> m.animation_data matches Some(d) && {
                    &&& d.animation_node == a.animation_node
                    &&& d.model_index == old(self).models@.len()
                    &&& d.animation_count == a.animation_count
                    &&& d.mesh_animation_data.mesh_animations == a.mesh_animations
                    &&& d.mesh_animation_data.node_to_lt_index
                        == model_data.mesh_data.node_to_lt_index_map
                    &&& d.joint_animation_data.joint_to_joint_index == joint_map
                    &&& d.joint_animation_data.joint_count == joint_map@.len()
                    &&& d.joint_animation_data.joint_indices@ == joint_indices_of(
                        model_data.joint_data@,
                    )
                    &&& d.is_skeletal == (joint_map@.len() > 0)
                }
            }),
            final(self).model_primitive_data@.len() == old(self).model_primitive_data@.len() + 1,
            final(self).model_primitive_data@.drop_last() == old(self).model_primitive_data@,
            final(self).model_primitive_data@.last().model_id == model_id,
            final(self).model_primitive_data@.last().primitive_data == primitive_data,
            final(self).local_transforms@ == old(self).local_transforms@
                + model_data.mesh_data@.buckets.flatten_alt(),
            final(self).joint_transforms@ == old(self).joint_transforms@
                + model_data.joint_data.joint_pose_transforms@,
            final(self).binary_data == old(self).binary_data,
            final(self).skin_ibms == old(self).skin_ibms,
    {
        model_data.mesh_data.append_local_transforms(&mut self.local_transforms);
        append_all(&mut self.joint_transforms, &model_data.joint_data.joint_pose_transforms);
        let model_index = self.models.len();
        let ModelData { mesh_data, joint_data } = model_data;
        let animation_data = match animations {
            Some(a) => {
                proof {
                    assert forall|i: int| 0 <= i < joint_data.joint_ids@.len() implies joint_data.joint_to_joint_index_map@.contains_key(
                        #[trigger] joint_data.joint_ids@[i],
                    ) by {
                        assert(model_data.joint_data@.ids[i] == joint_data.joint_ids@[i]);
                    }
                }
                let joint_count = joint_data.joint_to_joint_index_map.len();
                let indices = joint_indices(&joint_data.joint_ids, &joint_data.joint_to_joint_index_map);
                proof {
                    assert(indices@ =~= joint_indices_of(model_data.joint_data@));
                }
                Some(
                    ModelAnimationData {
                        animation_node: a.animation_node,
                        model_index,
                        animation_count: a.animation_count,
                        mesh_animation_data: MeshAnimationData {
                            mesh_animations: a.mesh_animations,
                            node_to_lt_index: mesh_data.node_to_lt_index_map,
                        },
                        joint_animation_data: JointAnimationData {
                            joint_to_joint_index: joint_data.joint_to_joint_index_map,
                            joint_count,
                            joint_indices: indices,
                        },
                        is_skeletal: joint_count > 0,
                    },
                )
            },
            None => None,
        };
        self.models.push(GModel::new(model_id, meshes, mesh_data.mesh_instances, animation_data));
        self.model_primitive_data.push(ModelPrimitiveData { model_id, primitive_data });
    }
}

} // verus!
