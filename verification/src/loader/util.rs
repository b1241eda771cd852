//! The mesh instances of a model as the scene builder records them: the
//! transforms in the order the mesh nodes are met, and an instance count for
//! each distinct mesh.
use crate::model::loader::util::{first_position, lemma_first_position_spec, mesh_id_of, NodeVisit};
use crate::model::model::LocalTransform;
use vstd::prelude::*;

verus! {

/// The meshes of a model: the distinct meshes in the order first met, how
/// many nodes instance each, and the local transform of every mesh node in
/// the order met.
pub struct ModelMeshData<M> {
    pub mesh_ids: Vec<u32>,
    pub mesh_instances: Vec<u32>,
    pub transformation_matrices: Vec<LocalTransform<M>>,
}

impl<M> ModelMeshData<M> {
    /// No mesh met yet.
    pub fn new() -> (r: Self)
        ensures
            r.mesh_ids@.len() == 0,
            r.mesh_instances@.len() == 0,
            r.transformation_matrices@.len() == 0,
    {
        Self { mesh_ids: Vec::new(), mesh_instances: Vec::new(), transformation_matrices: Vec::new() }
    }
}

/// The sum of the instance counts.
pub open spec fn total_instances(instances: Seq<u32>) -> int
    decreases instances.len(),
{
    if instances.len() == 0 {
        0
    } else {
        total_instances(instances.drop_last()) + instances.last()
    }
}

/// The mesh data after the first `k` visits: every mesh node adds its
/// transform, and one instance to its mesh, which joins the list when first
/// met.
pub open spec fn found_meshes<M>(visits: Seq<NodeVisit<M>>, k: int) -> (Seq<u32>, Seq<u32>, Seq<
    LocalTransform<M>,
>)
    decreases k,
{
    if k <= 0 {
        (seq![], seq![], seq![])
    } else {
        let (ids, instances, transforms) = found_meshes(visits, k - 1);
        let v = visits[k - 1];
        match v.mesh_index {
            Some(m) => {
                let id = mesh_id_of(m);
                let t = transforms.push(LocalTransform { transform_matrix: v.transform, model_index: 0 });
                match first_position(ids, id) {
                    Some(p) => (ids, instances.update(p, (instances[p] + 1) as u32), t),
                    None => (ids.push(id), instances.push(1), t),
                }
            },
            None => (ids, instances, transforms),
        }
    }
}

proof fn lemma_total_update(s: Seq<u32>, p: int, x: u32)
    requires
        0 <= p < s.len(),
    ensures
        total_instances(s.update(p, x)) == total_instances(s) - s[p] + x,
    decreases s.len(),
{
    if p < s.len() - 1 {
        lemma_total_update(s.drop_last(), p, x);
        assert(s.update(p, x).drop_last() =~= s.drop_last().update(p, x));
    } else {
        assert(s.update(p, x).drop_last() =~= s.drop_last());
    }
}

proof fn lemma_total_bounds(s: Seq<u32>, p: int)
    requires
        0 <= p < s.len(),
    ensures
        0 <= s[p] <= total_instances(s),
    decreases s.len(),
{
    lemma_total_nonneg(s.drop_last());
    if p < s.len() - 1 {
        lemma_total_bounds(s.drop_last(), p);
    }
}

proof fn lemma_total_nonneg(s: Seq<u32>)
    ensures
        0 <= total_instances(s),
    decreases s.len(),
{
    if s.len() > 0 {
        lemma_total_nonneg(s.drop_last());
    }
}

/// Records the mesh nodes of a model's tree, visited depth first with
/// parents before children, as [`found_meshes`] says. Every mesh node counts
/// once: the instance counts add up to the number of transforms.
pub fn find_model_meshes<M: Copy>(visits: &Vec<NodeVisit<M>>) -> (r: ModelMeshData<M>)
    requires
        visits@.len() < u32::MAX,
    ensures
        (r.mesh_ids@, r.mesh_instances@, r.transformation_matrices@) == found_meshes(
            visits@,
            visits@.len() as int,
        ),
        r.mesh_ids@.len() == r.mesh_instances@.len(),
        r.mesh_ids@.no_duplicates(),
        total_instances(r.mesh_instances@) == r.transformation_matrices@.len(),
{
    let mut data = ModelMeshData::new();
    proof {
        assert(data.mesh_ids@ =~= seq![]);
        assert(data.mesh_instances@ =~= seq![]);
        assert(data.transformation_matrices@ =~= seq![]);
    }
    let n = visits.len();
    let mut i: usize = 0;
    while i < n
        invariant
            i <= n,
            n == visits@.len(),
            n < u32::MAX,
            (data.mesh_ids@, data.mesh_instances@, data.transformation_matrices@) == found_meshes(
                visits@,
                i as int,
            ),
            data.mesh_ids@.len() == data.mesh_instances@.len(),
            data.mesh_ids@.no_duplicates(),
            total_instances(data.mesh_instances@) == data.transformation_matrices@.len(),
            data.transformation_matrices@.len() <= i,
        decreases n - i,
    {
        let visit = &visits[i];
        match visit.mesh_index {
            Some(mesh_index) => {
                let id = #[verifier::truncate]
                (mesh_index as u32);
                data.transformation_matrices.push(
                    LocalTransform { transform_matrix: visit.transform, model_index: 0 },
                );
                let ghost ids = data.mesh_ids@;
                let ghost instances = data.mesh_instances@;
                proof {
                    lemma_first_position_spec(ids, id);
                }
                let count = data.mesh_ids.len();
                let mut idx: usize = 0;
                while idx < count
                    invariant
                        idx <= count,
                        count == ids.len(),
                        ids == data.mesh_ids@,
                        forall|q: int| 0 <= q < idx ==> ids[q] != id,
                    ensures
                        idx < count ==> ids[idx as int] == id,
                    decreases count - idx,
                {
                    if data.mesh_ids[idx] == id {
                        break;
                    }
                    idx += 1;
                }
                if idx < count {
                    proof {
                        lemma_total_bounds(instances, idx as int);
                        lemma_total_update(instances, idx as int, (instances[idx as int] + 1) as u32);
                    }
                    let instance_count = data.mesh_instances[idx];
                    data.mesh_instances.set(idx, instance_count + 1);
                } else {
                    data.mesh_ids.push(id);
                    data.mesh_instances.push(1);
                    proof {
                        assert forall|x: int, y: int|
                            0 <= x < data.mesh_ids@.len() && 0 <= y < data.mesh_ids@.len() && x != y
                                implies data.mesh_ids@[x] != data.mesh_ids@[y] by {
                            if x < ids.len() && y < ids.len() {
                                assert(ids[x] != ids[y]);
                            }
                        }
                    }
                    proof {
                        assert(data.mesh_instances@.drop_last() =~= instances);
                    }
                }
            },
            None => {},
        }
        i += 1;
    }
    data
}

} // verus!
