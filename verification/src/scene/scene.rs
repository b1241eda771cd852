//! The scene's vertex and index buffers: where the vertices of every
//! primitive of every model go, and the index ranges of every primitive,
//! merged, read out of the main buffer, with each primitive placed in it.
use crate::model::loader::loader::ModelPrimitiveData;
use crate::model::model::{
    as_ints, index_offset_ok, lemma_model_vertices_monotone, merge_all, mesh_order,
    mesh_primitive_data, model_order_upto, model_vertices_upto, with_index_offsets,
    with_vertex_offsets, GModel,
};
use crate::model::primitive::{ranges_select_u16s, selected_bytes, u16s_in_one_order, GPrimitive};
use std::ops::Range;
use vstd::prelude::*;

verus! {

/// The index ranges of the primitive data of the first `k` models, merged
/// one after the other into an empty list; `None` where a merge fails.
pub open spec fn scene_ranges(datas: Seq<ModelPrimitiveData>, k: int) -> Option<Seq<Range<usize>>>
    decreases k,
{
    if k <= 0 {
        Some(seq![])
    } else {
        match scene_ranges(datas, k - 1) {
            Some(r) => merge_all(r, datas[k - 1].primitive_data@),
            None => None,
        }
    }
}

/// Every primitive of model `i` that is paired with a datum of its mesh
/// can be placed in the composed index buffer of `ranges`.
pub open spec fn model_offsets_ok<N>(model: GModel<N>, data: ModelPrimitiveData, ranges: Seq<Range<usize>>) -> bool {
    forall|m: int, j: int|
        0 <= m < model.meshes@.len() && 0 <= j < model.meshes@[m].primitives@.len() && j
            < mesh_primitive_data(data.primitive_data@, model.meshes@[m].mesh_id).len()
            ==> #[trigger] index_offset_ok(
            mesh_primitive_data(data.primitive_data@, model.meshes@[m].mesh_id)[j],
            ranges,
        )
}

/// `after` is `before` with the indices of its primitives placed in the
/// composed index buffer of `ranges`, pairing the primitives of each mesh
/// with the data of that mesh.
pub open spec fn placed_indices<N>(
    before: GModel<N>,
    after: GModel<N>,
    data: ModelPrimitiveData,
    ranges: Seq<Range<usize>>,
) -> bool {
    &&& after.model_id == before.model_id
    &&& after.mesh_instances == before.mesh_instances
    &&& after.animation_data == before.animation_data
    &&& after.meshes@.len() == before.meshes@.len()
    &&& forall|m: int|
        0 <= m < before.meshes@.len() ==> (#[trigger] after.meshes@[m]).mesh_id
            == before.meshes@[m].mesh_id && after.meshes@[m].primitives@ == with_index_offsets(
            before.meshes@[m].primitives@,
            mesh_primitive_data(data.primitive_data@, before.meshes@[m].mesh_id),
            ranges,
        )
}

/// Composes the scene's index buffer: merges the index range of every
/// primitive datum of every model, model after model, into one list of
/// ranges; reads the `u16` indices that the ranges select out of the main
/// buffer; and places the indices of each model's primitives in it.
/// `model_primitive_data[i]` holds the primitive data of model `i`.
pub fn get_scene_index_buffer_data<N>(
    models: &mut Vec<GModel<N>>,
    model_primitive_data: &Vec<ModelPrimitiveData>,
    main_buffer_data: &Vec<u8>,
) -> (r: Vec<u16>)
    requires
        old(models)@.len() == model_primitive_data@.len(),
        scene_ranges(model_primitive_data@, model_primitive_data@.len() as int) is Some,
        ranges_select_u16s(
            main_buffer_data@.len() as int,
            scene_ranges(model_primitive_data@, model_primitive_data@.len() as int).unwrap(),
        ),
        forall|i: int|
            0 <= i < old(models)@.len() ==> model_offsets_ok(
                #[trigger] old(models)@[i],
                model_primitive_data@[i],
                scene_ranges(model_primitive_data@, model_primitive_data@.len() as int).unwrap(),
            ),
    ensures
        ({
            let ranges = scene_ranges(model_primitive_data@, model_primitive_data@.len() as int).unwrap();
            &&& u16s_in_one_order(r@, selected_bytes(main_buffer_data@, ranges))
            &&& final(models)@.len() == old(models)@.len()
            &&& forall|i: int|
                0 <= i < old(models)@.len() ==> placed_indices(
                    #[trigger] old(models)@[i],
                    final(models)@[i],
                    model_primitive_data@[i],
                    ranges,
                )
        }),
{
    let ghost datas = model_primitive_data@;
    let n = model_primitive_data.len();
    let mut range_vec: Vec<Range<usize>> = Vec::new();
    let mut i: usize = 0;
    while i < n
        invariant
            i <= n,
            n == datas.len(),
            datas == model_primitive_data@,
            models@.len() == n,
            scene_ranges(datas, i as int) == Some(range_vec@),
            scene_ranges(datas, n as int) is Some,
        decreases n - i,
    {
        proof {
            lemma_scene_ranges_prefix(datas, i + 1, n as int);
        }
        models[i].build_range_vec(&mut range_vec, &model_primitive_data[i].primitive_data);
        i += 1;
    }
    let index_vec = GPrimitive::get_index_data(main_buffer_data, &range_vec);
    let ghost ranges = range_vec@;
    let ghost old_models = models@;
    let mut taken: Vec<GModel<N>> = Vec::new();
    std::mem::swap(&mut taken, models);
    let mut k: usize = 0;
    while k < n
        invariant
            k <= n,
            n == datas.len(),
            datas == model_primitive_data@,
            old_models.len() == n,
            taken@ == old_models.subrange(k as int, n as int),
            models@.len() == k,
            ranges == range_vec@,
            forall|q: int|
                0 <= q < n ==> model_offsets_ok(#[trigger] old_models[q], datas[q], ranges),
            forall|q: int|
                0 <= q < k ==> placed_indices(
                    #[trigger] old_models[q],
                    models@[q],
                    datas[q],
                    ranges,
                ),
        decreases n - k,
    {
        let ghost q = k as int;
        assert(taken@[0] == old_models[q]);
        let mut model = taken.remove(0);
        proof {
            assert(model_offsets_ok(old_models[q], datas[q], ranges));
        }
        model.set_model_primitive_offsets(&range_vec, &model_primitive_data[k].primitive_data);
        models.push(model);
        k += 1;
        proof {
            assert(taken@ =~= old_models.subrange(k as int, n as int));
        }
    }
    index_vec
}

proof fn lemma_scene_ranges_prefix(datas: Seq<ModelPrimitiveData>, i: int, n: int)
    requires
        0 <= i <= n,
        scene_ranges(datas, n) is Some,
    ensures
        scene_ranges(datas, i) is Some,
    decreases n - i,
{
    if i < n {
        lemma_scene_ranges_prefix(datas, i + 1, n);
    }
}

/// The vertices of the first `k` models.
pub open spec fn scene_vertices_upto<N>(models: Seq<GModel<N>>, datas: Seq<ModelPrimitiveData>, k: int) -> int
    decreases k,
{
    if k <= 0 {
        0
    } else {
        scene_vertices_upto(models, datas, k - 1) + model_vertices_upto(
            models[k - 1].meshes@,
            datas[k - 1].primitive_data@,
            models[k - 1].meshes@.len() as int,
        )
    }
}

proof fn lemma_scene_vertices_monotone<N>(models: Seq<GModel<N>>, datas: Seq<ModelPrimitiveData>, i: int, j: int)
    requires
        0 <= i <= j,
    ensures
        0 <= scene_vertices_upto(models, datas, i) <= scene_vertices_upto(models, datas, j),
    decreases j,
{
    if j > 0 {
        let k = if i < j {
            i
        } else {
            j - 1
        };
        lemma_scene_vertices_monotone(models, datas, k, j - 1);
        let m = models[j - 1];
        lemma_model_vertices_monotone(m.meshes@, datas[j - 1].primitive_data@, 0, m.meshes@.len() as int);
    }
}

/// `after` is `before` with the vertices of its primitives placed from
/// `base` on, mesh after mesh, pairing the primitives of each mesh with the
/// data of that mesh.
pub open spec fn placed_vertices<N>(before: GModel<N>, after: GModel<N>, data: ModelPrimitiveData, base: int) -> bool {
    &&& after.model_id == before.model_id
    &&& after.mesh_instances == before.mesh_instances
    &&& after.animation_data == before.animation_data
    &&& after.meshes@.len() == before.meshes@.len()
    &&& forall|m: int|
        0 <= m < before.meshes@.len() ==> (#[trigger] after.meshes@[m]).mesh_id
            == before.meshes@[m].mesh_id && after.meshes@[m].primitives@ == with_vertex_offsets(
            before.meshes@[m].primitives@,
            data.primitive_data@,
            mesh_order(before.meshes@[m], data.primitive_data@),
            base + model_vertices_upto(before.meshes@, data.primitive_data@, m),
        )
}

/// Places the vertices of every primitive of every model in the scene's
/// vertex buffer, model after model from the start of the buffer, and gives
/// for each model the positions of its primitive data in the order in which
/// their vertices fill the buffer. `model_primitive_data[i]` holds the
/// primitive data of model `i`.
pub fn get_scene_vertex_buffer_data<N>(
    models: &mut Vec<GModel<N>>,
    model_primitive_data: &Vec<ModelPrimitiveData>,
) -> (r: Vec<Vec<usize>>)
    requires
        old(models)@.len() == model_primitive_data@.len(),
        scene_vertices_upto(old(models)@, model_primitive_data@, old(models)@.len() as int)
            <= u32::MAX,
    ensures
        final(models)@.len() == old(models)@.len(),
        r@.len() == old(models)@.len(),
        forall|i: int|
            0 <= i < old(models)@.len() ==> placed_vertices(
                #[trigger] old(models)@[i],
                final(models)@[i],
                model_primitive_data@[i],
                scene_vertices_upto(old(models)@, model_primitive_data@, i),
            ) && as_ints(r@[i]@) == model_order_upto(
                old(models)@[i].meshes@,
                model_primitive_data@[i].primitive_data@,
                old(models)@[i].meshes@.len() as int,
            ),
{
    let ghost datas = model_primitive_data@;
    let ghost old_models = models@;
    let n = model_primitive_data.len();
    let mut orders: Vec<Vec<usize>> = Vec::new();
    let mut buffer_offset_val: u32 = 0;
    let mut taken: Vec<GModel<N>> = Vec::new();
    std::mem::swap(&mut taken, models);
    let mut k: usize = 0;
    while k < n
        invariant
            k <= n,
            n == datas.len(),
            datas == model_primitive_data@,
            old_models.len() == n,
            taken@ == old_models.subrange(k as int, n as int),
            models@.len() == k,
            orders@.len() == k,
            buffer_offset_val == scene_vertices_upto(old_models, datas, k as int),
            scene_vertices_upto(old_models, datas, n as int) <= u32::MAX,
            forall|q: int|
                0 <= q < k ==> placed_vertices(
                    #[trigger] old_models[q],
                    models@[q],
                    datas[q],
                    scene_vertices_upto(old_models, datas, q),
                ) && as_ints(orders@[q]@) == model_order_upto(
                    old_models[q].meshes@,
                    datas[q].primitive_data@,
                    old_models[q].meshes@.len() as int,
                ),
        decreases n - k,
    {
        let ghost q = k as int;
        assert(taken@[0] == old_models[q]);
        proof {
            lemma_scene_vertices_monotone(old_models, datas, q + 1, n as int);
        }
        let mut model = taken.remove(0);
        let order = model.set_model_vertex_offsets(&model_primitive_data[k].primitive_data, &mut buffer_offset_val);
        models.push(model);
        orders.push(order);
        k += 1;
        proof {
            assert(taken@ =~= old_models.subrange(k as int, n as int));
        }
    }
    orders
}

} // verus!
