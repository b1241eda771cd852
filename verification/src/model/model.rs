//! Models, their meshes and the per-instance local transforms.
use crate::model::primitive::{
    lemma_relative_offset_reads_back, ranges_within, primitive_data_of, primitive_has_views, primitive_readable, PrimitiveLayout,
    relative_offset_defined, relative_offset_from, selected_bytes, u16s_in_one_order,
    ranges_select_u16s, GPrimitive, PrimitiveData,
};
use crate::model::range_splicer::{define_index_ranges, merged_ranges};
use crate::model::util::GltfErrors;
use std::collections::HashMap;
use std::ops::Range;
use std::rc::Rc;
use vstd::prelude::*;

verus! {

#[derive(Debug, PartialEq, Eq, PartialOrd, Ord)]
pub enum AccessorDataType {
    U8,
    Vec3F32,
    U16,
}

/// The animations that move the meshes of a model, and where the local
/// transform of each animated mesh node lies.
pub struct MeshAnimationData {
    pub mesh_animations: Vec<usize>,
    pub node_to_lt_index: HashMap<usize, usize>,
}

/// The joints of a skinned model.
pub struct JointAnimationData {
    pub joint_to_joint_index: HashMap<usize, usize>,
    pub joint_count: usize,
    pub joint_indices: Vec<usize>,
}

/// The animation data of a model; `N` is the type of its animation node tree.
pub struct ModelAnimationData<N> {
    pub animation_node: Rc<N>,
    pub model_index: usize,
    pub animation_count: usize,
    pub mesh_animation_data: MeshAnimationData,
    pub joint_animation_data: JointAnimationData,
    pub is_skeletal: bool,
}

/// The transform of one mesh instance within its model, and the index of the
/// model instance it belongs to. `M` is the matrix type.
#[derive(Debug, Clone, Copy)]
pub struct LocalTransform<M> {
    pub transform_matrix: M,
    pub model_index: u32,
}

/// A mesh and its primitives.
#[derive(Debug)]
pub struct GMesh {
    pub mesh_id: usize,
    pub primitives: Vec<GPrimitive>,
}

/// A model: its meshes, how many times each mesh is instanced within the
/// model, and its optional animation data (`N` is the type of its animation
/// node tree).
pub struct GModel<N> {
    pub model_id: usize,
    pub meshes: Vec<GMesh>,
    pub mesh_instances: Vec<u32>,
    pub animation_data: Option<ModelAnimationData<N>>,
}

/// What the loading reads of a glTF mesh: its index and its primitives.
pub struct MeshLayout {
    pub index: usize,
    pub primitives: Vec<PrimitiveLayout>,
}

/// Every primitive of the mesh can be read out of a main buffer of `len`
/// bytes.
pub open spec fn mesh_readable(m: MeshLayout, buffer_offsets: Seq<u64>, len: int) -> bool {
    forall|j: int|
        0 <= j < m.primitives@.len() ==> primitive_readable(
            #[trigger] m.primitives@[j],
            buffer_offsets,
            len,
        )
}

/// Every accessor of every primitive of the mesh has a buffer view.
pub open spec fn mesh_has_views(m: MeshLayout) -> bool {
    forall|j: int| 0 <= j < m.primitives@.len() ==> primitive_has_views(#[trigger] m.primitives@[j])
}

/// `ds` is the data of the mesh's primitives, in order.
pub open spec fn mesh_data_of(ds: Seq<PrimitiveData>, m: MeshLayout, buffer_offsets: Seq<u64>, data: Seq<u8>) -> bool {
    &&& ds.len() == m.primitives@.len()
    &&& forall|j: int|
        0 <= j < ds.len() ==> primitive_data_of(
            #[trigger] ds[j],
            m.index,
            m.primitives@[j],
            buffer_offsets,
            data,
        )
}

impl GMesh {
    /// Reads the data of each primitive of `mesh`, in order. Fails with
    /// `NoView` when an accessor of one of them has no buffer view.
    pub fn get_primitive_data(
        mesh: &MeshLayout,
        buffer_offsets: &Vec<u64>,
        binary_data: &Vec<u8>,
    ) -> (r: Result<Vec<PrimitiveData>, GltfErrors>)
        requires
            mesh_readable(*mesh, buffer_offsets@, binary_data@.len() as int),
        ensures
            mesh_has_views(*mesh) <==> r is Ok,
            !mesh_has_views(*mesh) ==> (r matches Err(GltfErrors::NoView)),
            r matches Ok(ds) ==> mesh_data_of(ds@, *mesh, buffer_offsets@, binary_data@),
    {
        let mut primitive_data: Vec<PrimitiveData> = Vec::new();
        let n = mesh.primitives.len();
        let mut i: usize = 0;
        while i < n
            invariant
                i <= n,
                n == mesh.primitives@.len(),
                mesh_readable(*mesh, buffer_offsets@, binary_data@.len() as int),
                primitive_data@.len() == i,
                forall|j: int| 0 <= j < i ==> primitive_has_views(#[trigger] mesh.primitives@[j]),
                forall|j: int|
                    0 <= j < i ==> primitive_data_of(
                        #[trigger] primitive_data@[j],
                        mesh.index,
                        mesh.primitives@[j],
                        buffer_offsets@,
                        binary_data@,
                    ),
            decreases n - i,
        {
            proof {
                assert(primitive_readable(
                    mesh.primitives@[i as int],
                    buffer_offsets@,
                    binary_data@.len() as int,
                ));
            }
            match PrimitiveData::from_data(mesh.index, &mesh.primitives[i], buffer_offsets, binary_data) {
                Ok(data) => {
                    primitive_data.push(data);
                },
                Err(e) => {
                    return Err(e);
                },
            }
            i += 1;
        }
        Ok(primitive_data)
    }

    /// A mesh with `primitive_count` primitives whose place in the scene
    /// buffers is not known yet.
    pub fn new(mesh_id: usize, primitive_count: usize) -> (r: Result<Self, GltfErrors>)
        ensures
            r matches Ok(m) && m.mesh_id == mesh_id && m.primitives@.len() == primitive_count
                && forall|j: int|
                0 <= j < primitive_count ==> (#[trigger] m.primitives@[j]).initialized_vertex_offset_len
                    is None && m.primitives@[j].initialized_index_offset_len is None,
    {
        let mut g_primitives: Vec<GPrimitive> = Vec::new();
        let mut i: usize = 0;
        while i < primitive_count
            invariant
                i <= primitive_count,
                g_primitives@.len() == i,
                forall|j: int|
                    0 <= j < i ==> (#[trigger] g_primitives@[j]).initialized_vertex_offset_len
                        is None && g_primitives@[j].initialized_index_offset_len is None,
            decreases primitive_count - i,
        {
            g_primitives.push(GPrimitive::new());
            i += 1;
        }
        Ok(Self { mesh_id, primitives: g_primitives })
    }

}

/// The primitive data that belong to the mesh `id`, in order.
pub open spec fn mesh_primitive_data(datas: Seq<PrimitiveData>, id: usize) -> Seq<PrimitiveData> {
    datas.filter(|d: PrimitiveData| d.mesh_id == id)
}

/// The place of a primitive's indices in the composed index buffer.
pub open spec fn index_offset_len(d: PrimitiveData, ranges: Seq<Range<usize>>) -> (u32, u32) {
    let scan = relative_offset_from(ranges, d.indices_offset as int, d.indices_len as int, 0);
    ((scan.0 / 2) as u32, (d.indices_len as u32) / 2)
}

/// The primitive's indices can be placed in the composed index buffer.
pub open spec fn index_offset_ok(d: PrimitiveData, ranges: Seq<Range<usize>>) -> bool {
    &&& relative_offset_defined(ranges, d.indices_offset as int, d.indices_len as int, 0)
    &&& !relative_offset_from(ranges, d.indices_offset as int, d.indices_len as int, 0).1
}

/// The indices of a placed primitive read back: where the composed index
/// buffer holds the `u16`s of the bytes the ranges select, all read in one
/// byte order, a primitive that lies within one range and starts at an even
/// byte of the composed bytes finds at its index offset the `u16`s of its own
/// bytes, read in that order.
pub proof fn lemma_placed_indices_read_back(
    main: Seq<u8>,
    ranges: Seq<Range<usize>>,
    d: PrimitiveData,
    indices: Seq<u16>,
)
    requires
        ranges_within(main.len() as int, ranges),
        index_offset_ok(d, ranges),
        exists|k: int| 0 <= k < ranges.len() && d.indices_offset <= #[trigger] ranges[k].end,
        relative_offset_from(ranges, d.indices_offset as int, d.indices_len as int, 0).0 % 2 == 0,
        u16s_in_one_order(indices, selected_bytes(main, ranges)),
    ensures
        ({
            let at = relative_offset_from(ranges, d.indices_offset as int, d.indices_len as int, 0).0
                / 2;
            let o = d.indices_offset as int;
            (forall|t: int|
                0 <= t < d.indices_len / 2 ==> #[trigger] indices[at + t] == main[o + 2 * t] + 256
                    * main[o + 2 * t + 1]) || (forall|t: int|
                0 <= t < d.indices_len / 2 ==> #[trigger] indices[at + t] == main[o + 2 * t + 1]
                    + 256 * main[o + 2 * t])
        }),
{
    let rel = relative_offset_from(ranges, d.indices_offset as int, d.indices_len as int, 0).0;
    let sel = selected_bytes(main, ranges);
    let o = d.indices_offset as int;
    lemma_relative_offset_reads_back(main, ranges, d.indices_offset as int, d.indices_len as int);
    assert forall|t: int| 0 <= t < d.indices_len / 2 implies {
        &&& 0 <= rel / 2 + t < indices.len()
        &&& 2 * (rel / 2 + t) == rel + 2 * t
        &&& #[trigger] sel[rel + 2 * t] == main[o + 2 * t]
        &&& sel[rel + 2 * t + 1] == main[o + 2 * t + 1]
    } by {
        assert(2 * (rel / 2) == rel);
        assert(rel + d.indices_len <= sel.len());
        assert(2 * t + 1 < d.indices_len);
        assert(sel[rel + (2 * t + 1)] == main[o + (2 * t + 1)]);
    }
    if forall|j: int| 0 <= j < indices.len() ==> #[trigger] indices[j] == sel[2 * j] + 256 * sel[2 * j + 1] {
        assert forall|t: int| 0 <= t < d.indices_len / 2 implies #[trigger] indices[rel / 2 + t]
            == main[o + 2 * t] + 256 * main[o + 2 * t + 1] by {
            assert(sel[rel + 2 * t] == main[o + 2 * t]);
            assert(indices[rel / 2 + t] == sel[2 * (rel / 2 + t)] + 256 * sel[2 * (rel / 2 + t) + 1]);
        }
    } else {
        assert forall|t: int| 0 <= t < d.indices_len / 2 implies #[trigger] indices[rel / 2 + t]
            == main[o + 2 * t + 1] + 256 * main[o + 2 * t] by {
            assert(sel[rel + 2 * t] == main[o + 2 * t]);
            assert(indices[rel / 2 + t] == sel[2 * (rel / 2 + t) + 1] + 256 * sel[2 * (rel / 2 + t)]);
        }
    }
}

/// The primitives paired, in order, with the primitive data of their mesh
/// get their index placement; the unpaired ones stay as they are.
pub open spec fn with_index_offsets(
    prims: Seq<GPrimitive>,
    datas: Seq<PrimitiveData>,
    ranges: Seq<Range<usize>>,
) -> Seq<GPrimitive> {
    Seq::new(
        prims.len(),
        |j: int|
            if j < datas.len() {
                GPrimitive {
                    initialized_index_offset_len: Some(index_offset_len(datas[j], ranges)),
                    ..prims[j]
                }
            } else {
                prims[j]
            },
    )
}

/// The merging of the index ranges of the primitive data into `rs`, one
/// after the other; `None` where the end of an index range does not fit in
/// a `usize`.
pub open spec fn merge_all(rs: Seq<Range<usize>>, datas: Seq<PrimitiveData>) -> Option<
    Seq<Range<usize>>,
>
    decreases datas.len(),
{
    if datas.len() == 0 {
        Some(rs)
    } else {
        match merge_all(rs, datas.drop_last()) {
            Some(r) => {
                let d = datas.last();
                if d.indices_offset + d.indices_len <= usize::MAX {
                    Some(
                        merged_ranges(
                            r,
                            Range {
                                start: d.indices_offset,
                                end: (d.indices_offset + d.indices_len) as usize,
                            },
                        ),
                    )
                } else {
                    None
                }
            },
            None => None,
        }
    }
}

impl<N> GModel<N> {
    pub fn new(
        model_id: usize,
        meshes: Vec<GMesh>,
        mesh_instances: Vec<u32>,
        animation_data: Option<ModelAnimationData<N>>,
    ) -> (r: Self)
        ensures
            r.model_id == model_id,
            r.meshes@ == meshes@,
            r.mesh_instances == mesh_instances,
            r.animation_data == animation_data,
    {
        Self { model_id, meshes, mesh_instances, animation_data }
    }


    /// Merges the index range of each primitive datum, in order, into
    /// `range_vec`.
    pub fn build_range_vec(
        &self,
        range_vec: &mut Vec<Range<usize>>,
        primitive_data: &Vec<PrimitiveData>,
    )
        requires
            merge_all(old(range_vec)@, primitive_data@) is Some,
        ensures
            merge_all(old(range_vec)@, primitive_data@) == Some(final(range_vec)@),
    {
        let n = primitive_data.len();
        let mut i: usize = 0;
        while i < n
            invariant
                i <= n,
                n == primitive_data@.len(),
                merge_all(old(range_vec)@, primitive_data@.subrange(0, i as int)) == Some(
                    range_vec@,
                ),
                merge_all(old(range_vec)@, primitive_data@) is Some,
            decreases n - i,
        {
            proof {
                lemma_merge_all_prefix(old(range_vec)@, primitive_data@, i as int + 1);
                assert(primitive_data@.subrange(0, i + 1).drop_last() =~= primitive_data@.subrange(
                    0,
                    i as int,
                ));
            }
            let data = &primitive_data[i];
            let offset = data.indices_offset;
            let len = data.indices_len;
            let primitive_range = offset..offset + len;
            define_index_ranges(range_vec, &primitive_range);
            i += 1;
        }
        proof {
            assert(primitive_data@.subrange(0, n as int) =~= primitive_data@);
        }
    }

    /// The `u16` indices that the ranges select from the main buffer.
    pub fn get_model_index_data(main_buffer_data: &Vec<u8>, range_vec: &Vec<Range<usize>>) -> (r:
        Vec<u16>)
        requires
            ranges_select_u16s(main_buffer_data@.len() as int, range_vec@),
        ensures
            u16s_in_one_order(r@, selected_bytes(main_buffer_data@, range_vec@)),
    {
        GPrimitive::get_index_data(main_buffer_data, range_vec)
    }

    /// Places the indices of every primitive in the composed index buffer:
    /// the primitives of each mesh are paired, in order, with the primitive
    /// data of that mesh.
    pub fn set_model_primitive_offsets(
        &mut self,
        range_vec: &Vec<Range<usize>>,
        primitive_data: &Vec<PrimitiveData>,
    )
        requires
            forall|m: int, j: int|
                0 <= m < old(self).meshes@.len() && 0 <= j < old(self).meshes@[m].primitives@.len()
                    && j < mesh_primitive_data(primitive_data@, old(self).meshes@[m].mesh_id).len()
                    ==> #[trigger] index_offset_ok(
                    mesh_primitive_data(primitive_data@, old(self).meshes@[m].mesh_id)[j],
                    range_vec@,
                ),
        ensures
            final(self).model_id == old(self).model_id,
            final(self).mesh_instances == old(self).mesh_instances,
            final(self).animation_data == old(self).animation_data,
            final(self).meshes@.len() == old(self).meshes@.len(),
            forall|m: int|
                0 <= m < old(self).meshes@.len() ==> (#[trigger] final(self).meshes@[m]).mesh_id
                    == old(self).meshes@[m].mesh_id && final(self).meshes@[m].primitives@
                    == with_index_offsets(
                    old(self).meshes@[m].primitives@,
                    mesh_primitive_data(primitive_data@, old(self).meshes@[m].mesh_id),
                    range_vec@,
                ),
    {
        let ghost old_meshes = self.meshes@;
        let mut meshes: Vec<GMesh> = Vec::new();
        std::mem::swap(&mut meshes, &mut self.meshes);
        let mut new_meshes: Vec<GMesh> = Vec::new();
        let count = meshes.len();
        let mut m: usize = 0;
        while m < count
            invariant
                m <= count,
                count == old_meshes.len(),
                meshes@ == old_meshes.subrange(m as int, count as int),
                new_meshes@.len() == m,
                forall|k: int|
                    0 <= k < m ==> (#[trigger] new_meshes@[k]).mesh_id == old_meshes[k].mesh_id
                        && new_meshes@[k].primitives@ == with_index_offsets(
                        old_meshes[k].primitives@,
                        mesh_primitive_data(primitive_data@, old_meshes[k].mesh_id),
                        range_vec@,
                    ),
                forall|k: int, j: int|
                    0 <= k < old_meshes.len() && 0 <= j < old_meshes[k].primitives@.len() && j
                        < mesh_primitive_data(primitive_data@, old_meshes[k].mesh_id).len()
                        ==> #[trigger] index_offset_ok(
                        mesh_primitive_data(primitive_data@, old_meshes[k].mesh_id)[j],
                        range_vec@,
                    ),
            decreases count - m,
        {
            let ghost k = m as int;
            assert(meshes@[0] == old_meshes[k]);
            let mut mesh = meshes.remove(0);
            set_mesh_index_offsets(&mut mesh, range_vec, primitive_data);
            new_meshes.push(mesh);
            m += 1;
            proof {
                assert(meshes@ =~= old_meshes.subrange(m as int, count as int));
            }
        }
        self.meshes = new_meshes;
    }
}

proof fn lemma_merge_all_prefix(rs: Seq<Range<usize>>, datas: Seq<PrimitiveData>, k: int)
    requires
        merge_all(rs, datas) is Some,
        0 <= k <= datas.len(),
    ensures
        merge_all(rs, datas.subrange(0, k)) is Some,
    decreases datas.len() - k,
{
    if k < datas.len() {
        lemma_merge_all_prefix(rs, datas, k + 1);
        assert(datas.subrange(0, k + 1).drop_last() =~= datas.subrange(0, k));
    } else {
        assert(datas.subrange(0, k) =~= datas);
    }
}

proof fn lemma_filter_split(s: Seq<PrimitiveData>, pred: spec_fn(PrimitiveData) -> bool, d: int)
    requires
        0 <= d <= s.len(),
    ensures
        s.filter(pred) == s.subrange(0, d).filter(pred) + s.subrange(d, s.len() as int).filter(
            pred,
        ),
{
    Seq::filter_distributes_over_add(
        s.subrange(0, d),
        s.subrange(d, s.len() as int),
        pred,
    );
    assert(s.subrange(0, d) + s.subrange(d, s.len() as int) =~= s);
}

proof fn lemma_filter_step(s: Seq<PrimitiveData>, pred: spec_fn(PrimitiveData) -> bool, d: int)
    requires
        0 <= d < s.len(),
    ensures
        s.subrange(0, d + 1).filter(pred) == if pred(s[d]) {
            s.subrange(0, d).filter(pred).push(s[d])
        } else {
            s.subrange(0, d).filter(pred)
        },
{
    reveal(Seq::filter);
    assert(s.subrange(0, d + 1).drop_last() =~= s.subrange(0, d));
    assert(s.subrange(0, d + 1).last() == s[d]);
}

/// Places the indices of the mesh's primitives, pairing them in order with
/// the mesh's primitive data.
fn set_mesh_index_offsets(
    mesh: &mut GMesh,
    range_vec: &Vec<Range<usize>>,
    primitive_data: &Vec<PrimitiveData>,
)
    requires
        forall|j: int|
            0 <= j < old(mesh).primitives@.len() && j < mesh_primitive_data(
                primitive_data@,
                old(mesh).mesh_id,
            ).len() ==> #[trigger] index_offset_ok(
                mesh_primitive_data(primitive_data@, old(mesh).mesh_id)[j],
                range_vec@,
            ),
    ensures
        final(mesh).mesh_id == old(mesh).mesh_id,
        final(mesh).primitives@ == with_index_offsets(
            old(mesh).primitives@,
            mesh_primitive_data(primitive_data@, old(mesh).mesh_id),
            range_vec@,
        ),
{
    let id = mesh.mesh_id;
    let ghost pred = |d: PrimitiveData| d.mesh_id == id;
    let ghost old_prims = mesh.primitives@;
    let ghost s = primitive_data@;
    let ghost all = mesh_primitive_data(primitive_data@, id);
    assert(all == s.filter(pred));
    let n = primitive_data.len();
    let prim_count = mesh.primitives.len();
    let mut d: usize = 0;
    let mut j: usize = 0;
    proof {
        reveal(Seq::filter);
        assert(s.subrange(0, 0) =~= Seq::<PrimitiveData>::empty());
    }
    while d < n && j < prim_count
        invariant
            d <= n,
            n == s.len(),
            s == primitive_data@,
            id == mesh.mesh_id,
            id == old(mesh).mesh_id,
            old_prims == old(mesh).primitives@,
            all == s.filter(pred),
            pred == (|d: PrimitiveData| d.mesh_id == id),
            prim_count == old_prims.len(),
            mesh.primitives@.len() == prim_count,
            j == s.subrange(0, d as int).filter(pred).len(),
            j <= prim_count,
            forall|t: int|
                0 <= t < prim_count ==> #[trigger] mesh.primitives@[t] == if t < j {
                    with_index_offsets(old_prims, all, range_vec@)[t]
                } else {
                    old_prims[t]
                },
            forall|t: int|
                0 <= t < old_prims.len() && t < all.len() ==> #[trigger] index_offset_ok(
                    all[t],
                    range_vec@,
                ),
        decreases n - d,
    {
        proof {
            lemma_filter_step(s, pred, d as int);
            lemma_filter_split(s, pred, d + 1);
        }
        if primitive_data[d].mesh_id == id {
            proof {
                assert(s.subrange(0, d + 1).filter(pred)[j as int] == s[d as int]);
                assert(all[j as int] == s[d as int]);
                assert(index_offset_ok(all[j as int], range_vec@));
            }
            let mut p = mesh.primitives[j];
            let _ = p.set_relative_indices_offset(&primitive_data[d], range_vec);
            mesh.primitives[j] = p;
            proof {
                assert(mesh.primitives@[j as int] == with_index_offsets(old_prims, all, range_vec@)[j as int]);
            }
            j += 1;
        }
        d += 1;
    }
    proof {
        if d == n {
            assert(s.subrange(0, n as int) =~= s);
        }
        assert(mesh.primitives@ =~= with_index_offsets(old_prims, all, range_vec@));
    }
}

/// The positions as integers.
pub open spec fn as_ints(s: Seq<usize>) -> Seq<int> {
    s.map_values(|i: usize| i as int)
}

/// The positions, in order, of the primitive data of mesh `id`.
pub open spec fn data_indices(datas: Seq<PrimitiveData>, id: usize) -> Seq<int>
    decreases datas.len(),
{
    if datas.len() == 0 {
        seq![]
    } else {
        let rest = data_indices(datas.drop_last(), id);
        if datas.last().mesh_id == id {
            rest.push(datas.len() - 1)
        } else {
            rest
        }
    }
}

/// The number of vertices of a primitive datum: one per three `f32`
/// position components, taken as a `u32`.
pub open spec fn vertex_count(d: PrimitiveData) -> u32 {
    (d.positions@.len() / 12) as u32
}

/// The primitive data that a mesh's primitives are paired with, in order:
/// the mesh's own data, as many as it has primitives.
pub open spec fn mesh_order(m: GMesh, datas: Seq<PrimitiveData>) -> Seq<int> {
    let all = data_indices(datas, m.mesh_id);
    if all.len() <= m.primitives@.len() {
        all
    } else {
        all.take(m.primitives@.len() as int)
    }
}

/// The vertices of the first `j` data in `idxs`.
pub open spec fn vertices_before(datas: Seq<PrimitiveData>, idxs: Seq<int>, j: int) -> int
    decreases j,
{
    if j <= 0 {
        0
    } else {
        vertices_before(datas, idxs, j - 1) + vertex_count(datas[idxs[j - 1]])
    }
}

/// The vertices of the data paired with a mesh's primitives.
pub open spec fn mesh_vertices(m: GMesh, datas: Seq<PrimitiveData>) -> int {
    vertices_before(datas, mesh_order(m, datas), mesh_order(m, datas).len() as int)
}

/// The vertices of the first `k` meshes.
pub open spec fn model_vertices_upto(meshes: Seq<GMesh>, datas: Seq<PrimitiveData>, k: int) -> int
    decreases k,
{
    if k <= 0 {
        0
    } else {
        model_vertices_upto(meshes, datas, k - 1) + mesh_vertices(meshes[k - 1], datas)
    }
}

/// The order in which the primitive data of the first `k` meshes fill the
/// vertex buffer.
pub open spec fn model_order_upto(meshes: Seq<GMesh>, datas: Seq<PrimitiveData>, k: int) -> Seq<int>
    decreases k,
{
    if k <= 0 {
        seq![]
    } else {
        model_order_upto(meshes, datas, k - 1) + mesh_order(meshes[k - 1], datas)
    }
}

/// The primitives paired with the data at `idxs` get their vertex placement,
/// one after the other from `base` on; the others stay as they are.
pub open spec fn with_vertex_offsets(
    prims: Seq<GPrimitive>,
    datas: Seq<PrimitiveData>,
    idxs: Seq<int>,
    base: int,
) -> Seq<GPrimitive> {
    Seq::new(
        prims.len(),
        |j: int|
            if j < idxs.len() {
                GPrimitive {
                    initialized_vertex_offset_len: Some(
                        (
                            (base + vertices_before(datas, idxs, j)) as u32,
                            vertex_count(datas[idxs[j]]),
                        ),
                    ),
                    ..prims[j]
                }
            } else {
                prims[j]
            },
    )
}

proof fn lemma_data_indices_bounds(datas: Seq<PrimitiveData>, id: usize)
    ensures
        data_indices(datas, id).len() <= datas.len(),
        forall|t: int|
            0 <= t < data_indices(datas, id).len() ==> 0 <= #[trigger] data_indices(datas, id)[t]
                < datas.len() && datas[data_indices(datas, id)[t]].mesh_id == id,
    decreases datas.len(),
{
    if datas.len() > 0 {
        lemma_data_indices_bounds(datas.drop_last(), id);
    }
}

proof fn lemma_data_indices_prefix(datas: Seq<PrimitiveData>, id: usize, d: int)
    requires
        0 <= d <= datas.len(),
    ensures
        data_indices(datas.subrange(0, d), id).len() <= data_indices(datas, id).len(),
        data_indices(datas.subrange(0, d), id) == data_indices(datas, id).take(
            data_indices(datas.subrange(0, d), id).len() as int,
        ),
    decreases datas.len() - d,
{
    if d == datas.len() {
        assert(datas.subrange(0, d) =~= datas);
        assert(data_indices(datas, id) =~= data_indices(datas, id).take(
            data_indices(datas, id).len() as int,
        ));
    } else {
        lemma_data_indices_prefix(datas, id, d + 1);
        assert(datas.subrange(0, d + 1).drop_last() =~= datas.subrange(0, d));
        let small = data_indices(datas.subrange(0, d), id);
        let big = data_indices(datas.subrange(0, d + 1), id);
        let all = data_indices(datas, id);
        assert(small =~= all.take(small.len() as int));
    }
}

proof fn lemma_vertices_before_monotone(datas: Seq<PrimitiveData>, idxs: Seq<int>, i: int, j: int)
    requires
        0 <= i <= j,
    ensures
        0 <= vertices_before(datas, idxs, i) <= vertices_before(datas, idxs, j),
    decreases j,
{
    if j > 0 {
        let k = if i < j {
            i
        } else {
            j - 1
        };
        lemma_vertices_before_monotone(datas, idxs, k, j - 1);
    }
}

pub proof fn lemma_model_vertices_monotone(meshes: Seq<GMesh>, datas: Seq<PrimitiveData>, i: int, j: int)
    requires
        0 <= i <= j,
    ensures
        0 <= model_vertices_upto(meshes, datas, i) <= model_vertices_upto(meshes, datas, j),
    decreases j,
{
    if j > 0 {
        let k = if i < j {
            i
        } else {
            j - 1
        };
        lemma_model_vertices_monotone(meshes, datas, k, j - 1);
        let m = meshes[j - 1];
        lemma_vertices_before_monotone(datas, mesh_order(m, datas), 0, mesh_order(m, datas).len() as int);
    }
}

/// Places the vertices of the mesh's primitives, pairing them in order with
/// the mesh's primitive data, from `*buffer_offset_val` on; adds their number
/// to it and appends the positions of the paired data to `order`.
fn set_mesh_vertex_offsets(
    mesh: &mut GMesh,
    primitive_data: &Vec<PrimitiveData>,
    buffer_offset_val: &mut u32,
    order: &mut Vec<usize>,
)
    requires
        *old(buffer_offset_val) + mesh_vertices(*old(mesh), primitive_data@) <= u32::MAX,
    ensures
        final(mesh).mesh_id == old(mesh).mesh_id,
        final(mesh).primitives@ == with_vertex_offsets(
            old(mesh).primitives@,
            primitive_data@,
            mesh_order(*old(mesh), primitive_data@),
            *old(buffer_offset_val) as int,
        ),
        *final(buffer_offset_val) == *old(buffer_offset_val) + mesh_vertices(
            *old(mesh),
            primitive_data@,
        ),
        as_ints(final(order)@) == as_ints(old(order)@)
            + mesh_order(*old(mesh), primitive_data@),
{
    let id = mesh.mesh_id;
    let ghost old_prims = mesh.primitives@;
    let ghost s = primitive_data@;
    let ghost all = data_indices(s, id);
    let ghost target = mesh_order(*mesh, s);
    let ghost base = *buffer_offset_val as int;
    let ghost old_order = as_ints(order@);
    let n = primitive_data.len();
    let prim_count = mesh.primitives.len();
    let mut d: usize = 0;
    let mut j: usize = 0;
    proof {
        assert(s.subrange(0, 0) =~= Seq::<PrimitiveData>::empty());
        lemma_data_indices_bounds(s, id);
        lemma_vertices_before_monotone(s, target, 0, target.len() as int);
    }
    while d < n && j < prim_count
        invariant
            d <= n,
            n == s.len(),
            s == primitive_data@,
            id == mesh.mesh_id,
            id == old(mesh).mesh_id,
            old_prims == old(mesh).primitives@,
            all == data_indices(s, id),
            target == mesh_order(*old(mesh), s),
            base == *old(buffer_offset_val),
            base + vertices_before(s, target, target.len() as int) <= u32::MAX,
            prim_count == old_prims.len(),
            mesh.primitives@.len() == prim_count,
            j == data_indices(s.subrange(0, d as int), id).len(),
            j <= prim_count,
            j <= target.len(),
            forall|t: int| 0 <= t < j ==> target[t] == all[t],
            data_indices(s.subrange(0, d as int), id) == all.take(j as int),
            *buffer_offset_val == base + vertices_before(s, target, j as int),
            as_ints(order@) == old_order + target.take(j as int),
            old_order == as_ints(old(order)@),
            forall|t: int| 0 <= t < all.len() ==> 0 <= #[trigger] all[t] < s.len(),
            forall|t: int|
                0 <= t < prim_count ==> #[trigger] mesh.primitives@[t] == if t < j {
                    with_vertex_offsets(old_prims, s, target, base)[t]
                } else {
                    old_prims[t]
                },
        decreases n - d,
    {
        proof {
            lemma_data_indices_prefix(s, id, d + 1);
            assert(s.subrange(0, d + 1).drop_last() =~= s.subrange(0, d as int));
            assert(s.subrange(0, d + 1).last() == s[d as int]);
        }
        if primitive_data[d].mesh_id == id {
            proof {
                let next = data_indices(s.subrange(0, d + 1), id);
                assert(next == data_indices(s.subrange(0, d as int), id).push(d as int));
                assert(next[j as int] == d);
                assert(all.take(j + 1)[j as int] == all[j as int]);
                assert(all[j as int] == d);
                assert(target[j as int] == d);
                lemma_vertices_before_monotone(s, target, j + 1, target.len() as int);
            }
            let count = #[verifier::truncate]
            ((primitive_data[d].positions.len() / 12) as u32);
            let ghost prev = order@;
            let mut p = mesh.primitives[j];
            p.initialized_vertex_offset_len = Some((*buffer_offset_val, count));
            mesh.primitives[j] = p;
            *buffer_offset_val = *buffer_offset_val + count;
            order.push(d);
            proof {
                assert(as_ints(order@) =~= as_ints(prev).push(d as int));
                assert(as_ints(order@) =~= old_order + target.take(j + 1));
            }
            j += 1;
        }
        d += 1;
    }
    proof {
        if d == n {
            assert(s.subrange(0, n as int) =~= s);
            assert(j == all.len());
        }
        assert(j == target.len());
        assert(target.take(j as int) =~= target);
        assert(mesh.primitives@ =~= with_vertex_offsets(old_prims, s, target, base));
    }
}

impl<N> GModel<N> {
    /// Places the vertices of every primitive in the scene's vertex buffer,
    /// from `*buffer_offset_val` on: the primitives of each mesh are paired,
    /// in order, with the primitive data of that mesh, and each takes as
    /// many vertices as its datum has positions. Returns the positions of
    /// the paired data in the order in which their vertices fill the buffer.
    pub fn set_model_vertex_offsets(
        &mut self,
        primitive_data: &Vec<PrimitiveData>,
        buffer_offset_val: &mut u32,
    ) -> (order: Vec<usize>)
        requires
            *old(buffer_offset_val) + model_vertices_upto(
                old(self).meshes@,
                primitive_data@,
                old(self).meshes@.len() as int,
            ) <= u32::MAX,
        ensures
            final(self).model_id == old(self).model_id,
            final(self).mesh_instances == old(self).mesh_instances,
            final(self).animation_data == old(self).animation_data,
            final(self).meshes@.len() == old(self).meshes@.len(),
            forall|m: int|
                0 <= m < old(self).meshes@.len() ==> (#[trigger] final(self).meshes@[m]).mesh_id
                    == old(self).meshes@[m].mesh_id && final(self).meshes@[m].primitives@
                    == with_vertex_offsets(
                    old(self).meshes@[m].primitives@,
                    primitive_data@,
                    mesh_order(old(self).meshes@[m], primitive_data@),
                    *old(buffer_offset_val) + model_vertices_upto(
                        old(self).meshes@,
                        primitive_data@,
                        m,
                    ),
                ),
            *final(buffer_offset_val) == *old(buffer_offset_val) + model_vertices_upto(
                old(self).meshes@,
                primitive_data@,
                old(self).meshes@.len() as int,
            ),
            as_ints(order@) == model_order_upto(
                old(self).meshes@,
                primitive_data@,
                old(self).meshes@.len() as int,
            ),
    {
        let ghost old_meshes = self.meshes@;
        let ghost start = *buffer_offset_val as int;
        let ghost s = primitive_data@;
        let mut order: Vec<usize> = Vec::new();
        let mut meshes: Vec<GMesh> = Vec::new();
        std::mem::swap(&mut meshes, &mut self.meshes);
        let mut new_meshes: Vec<GMesh> = Vec::new();
        let count = meshes.len();
        let mut m: usize = 0;
        proof {
            assert(as_ints(order@) =~= Seq::<int>::empty());
            assert(model_order_upto(old_meshes, s, 0) =~= Seq::<int>::empty());
        }
        while m < count
            invariant
                m <= count,
                count == old_meshes.len(),
                s == primitive_data@,
                meshes@ == old_meshes.subrange(m as int, count as int),
                new_meshes@.len() == m,
                start + model_vertices_upto(old_meshes, s, count as int) <= u32::MAX,
                *buffer_offset_val == start + model_vertices_upto(old_meshes, s, m as int),
                as_ints(order@) == model_order_upto(old_meshes, s, m as int),
                forall|k: int|
                    0 <= k < m ==> (#[trigger] new_meshes@[k]).mesh_id == old_meshes[k].mesh_id
                        && new_meshes@[k].primitives@ == with_vertex_offsets(
                        old_meshes[k].primitives@,
                        s,
                        mesh_order(old_meshes[k], s),
                        start + model_vertices_upto(old_meshes, s, k),
                    ),
            decreases count - m,
        {
            let ghost k = m as int;
            assert(meshes@[0] == old_meshes[k]);
            proof {
                lemma_model_vertices_monotone(old_meshes, s, k + 1, count as int);
            }
            let mut mesh = meshes.remove(0);
            set_mesh_vertex_offsets(&mut mesh, primitive_data, buffer_offset_val, &mut order);
            new_meshes.push(mesh);
            m += 1;
            proof {
                assert(meshes@ =~= old_meshes.subrange(m as int, count as int));
            }
        }
        self.meshes = new_meshes;
        order
    }
}

} // verus!
