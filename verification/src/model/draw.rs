//! The draw calls that render a scene: for each primitive of each mesh of
//! each model, an indexed draw over its indices or a plain draw over its
//! vertices, for the range of instances that the mesh's transforms occupy.
use crate::model::model::{GMesh, GModel};
use crate::model::primitive::GPrimitive;
use std::ops::Range;
use vstd::prelude::*;

verus! {

/// One draw call of a render pass.
#[derive(Debug)]
pub enum DrawCall {
    /// Draw the indices `indices`, each added to `base_vertex`, for the
    /// instances `instances`.
    Indexed { indices: Range<u32>, base_vertex: i32, instances: Range<u32> },
    /// Draw the vertices `vertices` for the instances `instances`.
    NonIndexed { vertices: Range<u32>, instances: Range<u32> },
}

/// The primitive knows where its vertices and indices lie.
pub open spec fn primitive_ready(p: GPrimitive) -> bool {
    p.initialized_vertex_offset_len is Some && p.initialized_index_offset_len is Some
}

/// The ends of the ranges of the primitive's draw call fit in a `u32`.
pub open spec fn primitive_draw_fits(p: GPrimitive) -> bool {
    let (io, il) = p.initialized_index_offset_len.unwrap();
    let (vo, vl) = p.initialized_vertex_offset_len.unwrap();
    if il > 0 {
        io + il <= u32::MAX
    } else {
        vo + vl <= u32::MAX
    }
}

/// The draw call of a primitive for the instances `start..end`: over its
/// indices where it has any, with its vertex offset as base vertex, else over
/// its vertices.
pub open spec fn primitive_draw_call(p: GPrimitive, start: u32, end: u32) -> DrawCall {
    let (io, il) = p.initialized_index_offset_len.unwrap();
    let (vo, vl) = p.initialized_vertex_offset_len.unwrap();
    let instances = Range { start, end };
    if il > 0 {
        DrawCall::Indexed {
            indices: Range { start: io, end: (il + io) as u32 },
            base_vertex: vo as i32,
            instances,
        }
    } else {
        DrawCall::NonIndexed { vertices: Range { start: vo, end: (vo + vl) as u32 }, instances }
    }
}

/// Every primitive of the mesh can be drawn.
pub open spec fn mesh_drawable(m: GMesh) -> bool {
    forall|j: int|
        0 <= j < m.primitives@.len() ==> primitive_ready(#[trigger] m.primitives@[j])
            && primitive_draw_fits(m.primitives@[j])
}

/// The draw calls of a mesh's primitives, in order.
pub open spec fn mesh_draw_calls(m: GMesh, start: u32, end: u32) -> Seq<DrawCall> {
    m.primitives@.map_values(|p: GPrimitive| primitive_draw_call(p, start, end))
}

/// The instances of the first `k` meshes of a model drawn `count` times.
pub open spec fn instances_before(mesh_instances: Seq<u32>, count: int, k: int) -> int
    decreases k,
{
    if k <= 0 {
        0
    } else {
        instances_before(mesh_instances, count, k - 1) + mesh_instances[k - 1] * count
    }
}

/// The draw calls of the first `k` meshes of a model whose instances start
/// at `offset`: each mesh is drawn for its own instances times `count`, right
/// after those of the meshes before it.
pub open spec fn model_draw_calls_upto<N>(model: GModel<N>, offset: int, count: int, k: int) -> Seq<
    DrawCall,
>
    decreases k,
{
    if k <= 0 {
        seq![]
    } else {
        let start = offset + instances_before(model.mesh_instances@, count, k - 1);
        let end = start + model.mesh_instances@[k - 1] * count;
        model_draw_calls_upto(model, offset, count, k - 1) + mesh_draw_calls(
            model.meshes@[k - 1],
            start as u32,
            end as u32,
        )
    }
}

/// The draw calls of a whole model.
pub open spec fn model_draw_calls<N>(model: GModel<N>, offset: int, count: int) -> Seq<DrawCall> {
    model_draw_calls_upto(model, offset, count, model.meshes@.len() as int)
}

/// The model can be drawn `count` times from instance `offset` on: each of
/// its meshes has an instance count, every primitive can be drawn, and the
/// instances fit in a `u32`.
pub open spec fn model_drawable<N>(model: GModel<N>, offset: int, count: int) -> bool {
    &&& model.meshes@.len() <= model.mesh_instances@.len()
    &&& forall|j: int| 0 <= j < model.meshes@.len() ==> mesh_drawable(#[trigger] model.meshes@[j])
    &&& offset + instances_before(model.mesh_instances@, count, model.meshes@.len() as int)
        <= u32::MAX
}

proof fn lemma_instances_before_monotone(mesh_instances: Seq<u32>, count: int, i: int, j: int)
    requires
        0 <= i <= j <= mesh_instances.len(),
        count >= 0,
    ensures
        0 <= instances_before(mesh_instances, count, i) <= instances_before(
            mesh_instances,
            count,
            j,
        ),
    decreases j,
{
    if j > 0 {
        let k = if i < j { i } else { j - 1 };
        lemma_instances_before_monotone(mesh_instances, count, k, j - 1);
        assert(mesh_instances[j - 1] * count >= 0) by (nonlinear_arith)
            requires
                count >= 0,
        ;
    }
}

/// The draw calls of a mesh's primitives for the instances `instances`.
pub fn draw_gmesh_instanced(mesh: &GMesh, instances: Range<u32>) -> (r: Vec<DrawCall>)
    requires
        mesh_drawable(*mesh),
    ensures
        r@ == mesh_draw_calls(*mesh, instances.start, instances.end),
{
    let mut calls: Vec<DrawCall> = Vec::new();
    let n = mesh.primitives.len();
    let mut i: usize = 0;
    while i < n
        invariant
            i <= n,
            n == mesh.primitives@.len(),
            mesh_drawable(*mesh),
            calls@ == mesh_draw_calls(*mesh, instances.start, instances.end).subrange(0, i as int),
        decreases n - i,
    {
        let primitive = mesh.primitives[i];
        proof {
            assert(primitive_ready(mesh.primitives@[i as int]));
        }
        let (indices_offset, indices_length) = primitive.initialized_index_offset_len.unwrap();
        let (vertices_offset, vertices_length) = primitive.initialized_vertex_offset_len.unwrap();
        let call = if indices_length > 0 {
            DrawCall::Indexed {
                indices: Range { start: indices_offset, end: indices_length + indices_offset },
                base_vertex: #[verifier::truncate]
                (vertices_offset as i32),
                instances: Range { start: instances.start, end: instances.end },
            }
        } else {
            DrawCall::NonIndexed {
                vertices: Range { start: vertices_offset, end: vertices_offset + vertices_length },
                instances: Range { start: instances.start, end: instances.end },
            }
        };
        calls.push(call);
        proof {
            assert(calls@ =~= mesh_draw_calls(*mesh, instances.start, instances.end).subrange(
                0,
                i + 1,
            ));
        }
        i += 1;
    }
    proof {
        assert(calls@ =~= mesh_draw_calls(*mesh, instances.start, instances.end));
    }
    calls
}

/// The draw calls of a model whose instances start at `model_offset`, each
/// mesh drawn for its instances times `model_instance_count`, and the
/// instance where the model's instances end.
pub fn draw_gmodel<N>(model: &GModel<N>, model_offset: u32, model_instance_count: u32) -> (r: (
    Vec<DrawCall>,
    u32,
))
    requires
        model_drawable(*model, model_offset as int, model_instance_count as int),
    ensures
        r.0@ == model_draw_calls(*model, model_offset as int, model_instance_count as int),
        r.1 == model_offset + instances_before(
            model.mesh_instances@,
            model_instance_count as int,
            model.meshes@.len() as int,
        ),
{
    let ghost offset = model_offset as int;
    let ghost count = model_instance_count as int;
    let mut calls: Vec<DrawCall> = Vec::new();
    let mut mesh_offset = model_offset;
    let n = model.meshes.len();
    let mut idx: usize = 0;
    while idx < n
        invariant
            idx <= n,
            n == model.meshes@.len(),
            model_drawable(*model, offset, count),
            offset == model_offset,
            count == model_instance_count,
            mesh_offset == offset + instances_before(model.mesh_instances@, count, idx as int),
            calls@ == model_draw_calls_upto(*model, offset, count, idx as int),
        decreases n - idx,
    {
        proof {
            lemma_instances_before_monotone(model.mesh_instances@, count, idx + 1, n as int);
            lemma_instances_before_monotone(model.mesh_instances@, count, idx as int, idx + 1);
        }
        let num_mesh_instances = model.mesh_instances[idx] * model_instance_count;
        let mesh_calls = draw_gmesh_instanced(
            &model.meshes[idx],
            Range { start: mesh_offset, end: mesh_offset + num_mesh_instances },
        );
        let mut mesh_calls = mesh_calls;
        calls.append(&mut mesh_calls);
        mesh_offset = mesh_offset + num_mesh_instances;
        idx += 1;
    }
    (calls, mesh_offset)
}

/// The instance count of model `k` as the draw calls take it.
pub open spec fn drawn_count(model_instances: Seq<usize>, k: int) -> int {
    (model_instances[k] as u32) as int
}

/// The first instance of model `k`: the models' instances lie one after
/// the other, so it is where the instances of the models before it end.
pub open spec fn scene_offset<N>(models: Seq<GModel<N>>, model_instances: Seq<usize>, k: int) -> int
    decreases k,
{
    if k <= 0 {
        0
    } else {
        let m = models[k - 1];
        scene_offset(models, model_instances, k - 1) + instances_before(
            m.mesh_instances@,
            drawn_count(model_instances, k - 1),
            m.meshes@.len() as int,
        )
    }
}

/// The draw calls of the first `k` models.
pub open spec fn scene_draw_calls<N>(models: Seq<GModel<N>>, model_instances: Seq<usize>, k: int) -> Seq<
    DrawCall,
>
    decreases k,
{
    if k <= 0 {
        seq![]
    } else {
        scene_draw_calls(models, model_instances, k - 1) + model_draw_calls(
            models[k - 1],
            scene_offset(models, model_instances, k - 1),
            drawn_count(model_instances, k - 1),
        )
    }
}

/// Every model has an instance count, can be drawn from its first instance,
/// and the instance after its last fits in a `u32`.
pub open spec fn scene_drawable<N>(models: Seq<GModel<N>>, model_instances: Seq<usize>) -> bool {
    &&& models.len() <= model_instances.len()
    &&& forall|k: int|
        0 <= k < models.len() ==> model_drawable(
            #[trigger] models[k],
            scene_offset(models, model_instances, k),
            drawn_count(model_instances, k),
        ) && scene_offset(models, model_instances, k + 1) <= u32::MAX
}

/// The draw calls of a scene's models, model after model, each drawn for its
/// instance count in `model_instances`, the instances of each model right
/// after those of the model before it.
pub fn draw_scene<N>(models: &Vec<GModel<N>>, model_instances: &Vec<usize>) -> (r: Vec<DrawCall>)
    requires
        scene_drawable(models@, model_instances@),
    ensures
        r@ == scene_draw_calls(models@, model_instances@, models@.len() as int),
{
    let mut calls: Vec<DrawCall> = Vec::new();
    let mut offset: u32 = 0;
    let n = models.len();
    let mut idx: usize = 0;
    while idx < n
        invariant
            idx <= n,
            n == models@.len(),
            scene_drawable(models@, model_instances@),
            offset == scene_offset(models@, model_instances@, idx as int),
            calls@ == scene_draw_calls(models@, model_instances@, idx as int),
        decreases n - idx,
    {
        proof {
            assert(model_drawable(
                models@[idx as int],
                scene_offset(models@, model_instances@, idx as int),
                drawn_count(model_instances@, idx as int),
            ));
        }
        let count = #[verifier::truncate]
        (model_instances[idx] as u32);
        let (model_calls, end) = draw_gmodel(&models[idx], offset, count);
        let mut model_calls = model_calls;
        calls.append(&mut model_calls);
        offset = end;
        idx += 1;
    }
    calls
}

/// The instances that a draw call draws.
pub open spec fn call_instances(c: DrawCall) -> Range<u32> {
    match c {
        DrawCall::Indexed { instances, .. } => instances,
        DrawCall::NonIndexed { instances, .. } => instances,
    }
}

/// The primitives of the first `j` meshes of a model.
pub open spec fn mesh_calls_before<N>(model: GModel<N>, j: int) -> int
    decreases j,
{
    if j <= 0 {
        0
    } else {
        mesh_calls_before(model, j - 1) + model.meshes@[j - 1].primitives@.len()
    }
}

/// The primitives of the first `k` models.
pub open spec fn scene_calls_before<N>(models: Seq<GModel<N>>, k: int) -> int
    decreases k,
{
    if k <= 0 {
        0
    } else {
        scene_calls_before(models, k - 1) + mesh_calls_before(
            models[k - 1],
            models[k - 1].meshes@.len() as int,
        )
    }
}

/// The instances of the first `k` models, each model counted with its
/// meshes' instances times its own number of instances.
pub open spec fn scene_instances_before<N>(models: Seq<GModel<N>>, model_instances: Seq<usize>, k: int) -> int
    decreases k,
{
    if k <= 0 {
        0
    } else {
        scene_instances_before(models, model_instances, k - 1) + instances_before(
            models[k - 1].mesh_instances@,
            (model_instances[k - 1] as u32) as int,
            models[k - 1].meshes@.len() as int,
        )
    }
}

proof fn lemma_mesh_calls_monotone<N>(model: GModel<N>, i: int, j: int)
    requires
        0 <= i <= j,
    ensures
        0 <= mesh_calls_before(model, i) <= mesh_calls_before(model, j),
    decreases j,
{
    if j > 0 {
        let k = if i < j {
            i
        } else {
            j - 1
        };
        lemma_mesh_calls_monotone(model, k, j - 1);
    }
}

proof fn lemma_scene_calls_monotone<N>(models: Seq<GModel<N>>, i: int, j: int)
    requires
        0 <= i <= j,
    ensures
        0 <= scene_calls_before(models, i) <= scene_calls_before(models, j),
    decreases j,
{
    if j > 0 {
        let k = if i < j {
            i
        } else {
            j - 1
        };
        lemma_scene_calls_monotone(models, k, j - 1);
        let m = models[j - 1];
        lemma_mesh_calls_monotone(m, 0, m.meshes@.len() as int);
    }
}

proof fn lemma_model_calls_at<N>(model: GModel<N>, offset: int, count: int, jj: int)
    requires
        0 <= jj <= model.meshes@.len(),
    ensures
        model_draw_calls_upto(model, offset, count, jj).len() == mesh_calls_before(model, jj),
        forall|j: int, p: int|
            0 <= j < jj && 0 <= p < model.meshes@[j].primitives@.len() ==> #[trigger] model_draw_calls_upto(
                model,
                offset,
                count,
                jj,
            )[mesh_calls_before(model, j) + p] == primitive_draw_call(
                model.meshes@[j].primitives@[p],
                (offset + instances_before(model.mesh_instances@, count, j)) as u32,
                (offset + instances_before(model.mesh_instances@, count, j) + model.mesh_instances@[j]
                    * count) as u32,
            ),
    decreases jj,
{
    if jj > 0 {
        lemma_model_calls_at(model, offset, count, jj - 1);
        lemma_mesh_calls_monotone(model, 0, jj - 1);
        let prev = model_draw_calls_upto(model, offset, count, jj - 1);
        let m = model.meshes@[jj - 1];
        let start = offset + instances_before(model.mesh_instances@, count, jj - 1);
        let end = start + model.mesh_instances@[jj - 1] * count;
        let last = mesh_draw_calls(m, start as u32, end as u32);
        assert(model_draw_calls_upto(model, offset, count, jj) == prev + last);
        assert forall|j: int, p: int|
            0 <= j < jj && 0 <= p < model.meshes@[j].primitives@.len() implies #[trigger] model_draw_calls_upto(
                model,
                offset,
                count,
                jj,
            )[mesh_calls_before(model, j) + p] == primitive_draw_call(
                model.meshes@[j].primitives@[p],
                (offset + instances_before(model.mesh_instances@, count, j)) as u32,
                (offset + instances_before(model.mesh_instances@, count, j) + model.mesh_instances@[j]
                    * count) as u32,
            ) by {
            let x = mesh_calls_before(model, j) + p;
            lemma_mesh_calls_monotone(model, 0, j);
            if j < jj - 1 {
                lemma_mesh_calls_monotone(model, j + 1, jj - 1);
                assert(mesh_calls_before(model, j) + p < mesh_calls_before(model, jj - 1));
                assert((prev + last)[x] == prev[x]);
                assert(prev[mesh_calls_before(model, j) + p] == primitive_draw_call(
                    model.meshes@[j].primitives@[p],
                    (offset + instances_before(model.mesh_instances@, count, j)) as u32,
                    (offset + instances_before(model.mesh_instances@, count, j)
                        + model.mesh_instances@[j] * count) as u32,
                ));
            } else {
                assert(j == jj - 1);
                assert(x == prev.len() + p);
                assert(last.len() == m.primitives@.len());
                assert((prev + last)[x] == last[p]);
                assert(last[p] == primitive_draw_call(m.primitives@[p], start as u32, end as u32));
            }
        }
    }
}

proof fn lemma_scene_calls_at<N>(models: Seq<GModel<N>>, model_instances: Seq<usize>, kk: int)
    requires
        0 <= kk <= models.len(),
    ensures
        scene_draw_calls(models, model_instances, kk).len() == scene_calls_before(models, kk),
        forall|k: int, q: int|
            0 <= k < kk && 0 <= q < mesh_calls_before(models[k], models[k].meshes@.len() as int)
                ==> #[trigger] scene_draw_calls(models, model_instances, kk)[scene_calls_before(models, k) + q]
                == model_draw_calls(
                models[k],
                scene_offset(models, model_instances, k),
                drawn_count(model_instances, k),
            )[q],
    decreases kk,
{
    if kk > 0 {
        lemma_scene_calls_at(models, model_instances, kk - 1);
        let prev = scene_draw_calls(models, model_instances, kk - 1);
        let mk = models[kk - 1];
        lemma_model_calls_at(
            mk,
            scene_offset(models, model_instances, kk - 1),
            drawn_count(model_instances, kk - 1),
            mk.meshes@.len() as int,
        );
        assert forall|k: int, q: int|
            0 <= k < kk && 0 <= q < mesh_calls_before(models[k], models[k].meshes@.len() as int)
                implies #[trigger] scene_draw_calls(models, model_instances, kk)[scene_calls_before(models, k) + q]
                == model_draw_calls(
                models[k],
                scene_offset(models, model_instances, k),
                drawn_count(model_instances, k),
            )[q] by {
            let x = scene_calls_before(models, k) + q;
            let last = model_draw_calls(
                mk,
                scene_offset(models, model_instances, kk - 1),
                drawn_count(model_instances, kk - 1),
            );
            assert(scene_draw_calls(models, model_instances, kk) == prev + last);
            lemma_scene_calls_monotone(models, 0, k);
            if k < kk - 1 {
                lemma_scene_calls_monotone(models, k + 1, kk - 1);
                assert(x < prev.len());
                assert((prev + last)[x] == prev[x]);
            } else {
                assert(k == kk - 1);
                assert(x == prev.len() + q);
                assert((prev + last)[x] == last[q]);
            }
        }
    }
}

proof fn lemma_scene_offset_nonneg<N>(models: Seq<GModel<N>>, model_instances: Seq<usize>, k: int)
    ensures
        0 <= scene_offset(models, model_instances, k),
    decreases k,
{
    if k > 0 {
        lemma_scene_offset_nonneg(models, model_instances, k - 1);
        let m = models[k - 1];
        let c = drawn_count(model_instances, k - 1);
        assert(c >= 0);
        lemma_instances_before_monotone(m.mesh_instances@, c, 0, 0);
        if m.meshes@.len() <= m.mesh_instances@.len() {
            lemma_instances_before_monotone(m.mesh_instances@, c, 0, m.meshes@.len() as int);
        } else {
            lemma_instances_before_nonneg(m.mesh_instances@, c, m.meshes@.len() as int);
        }
    }
}

proof fn lemma_instances_before_nonneg(mesh_instances: Seq<u32>, count: int, k: int)
    requires
        count >= 0,
    ensures
        0 <= instances_before(mesh_instances, count, k),
    decreases k,
{
    if k > 0 {
        lemma_instances_before_nonneg(mesh_instances, count, k - 1);
        assert(mesh_instances[k - 1] * count >= 0) by (nonlinear_arith)
            requires
                count >= 0,
        ;
    }
}

proof fn lemma_scene_offset_is_instances_before<N>(models: Seq<GModel<N>>, model_instances: Seq<usize>, k: int)
    ensures
        scene_offset(models, model_instances, k) == scene_instances_before(models, model_instances, k),
    decreases k,
{
    if k > 0 {
        lemma_scene_offset_is_instances_before(models, model_instances, k - 1);
    }
}

/// The draw call of primitive `p` of mesh `j` of model `k` among the
/// scene's draw calls.
pub open spec fn scene_call<N>(models: Seq<GModel<N>>, model_instances: Seq<usize>, k: int, j: int, p: int) -> DrawCall {
    scene_draw_calls(models, model_instances, models.len() as int)[scene_calls_before(models, k)
        + mesh_calls_before(models[k], j) + p]
}

/// Every model is drawn as many times as it has instances: the draw call of
/// primitive `p` of mesh `j` of model `k` draws the mesh's instances times
/// the model's instance count, right after the instances of the models
/// before it and of the model's meshes before it.
pub proof fn lemma_scene_draw_instances<N>(models: Seq<GModel<N>>, model_instances: Seq<usize>)
    requires
        scene_drawable(models, model_instances),
    ensures
        scene_draw_calls(models, model_instances, models.len() as int).len() == scene_calls_before(
            models,
            models.len() as int,
        ),
        forall|k: int, j: int, p: int|
            0 <= k < models.len() && 0 <= j < models[k].meshes@.len() && 0 <= p
                < models[k].meshes@[j].primitives@.len() ==> {
                &&& call_instances(#[trigger] scene_call(models, model_instances, k, j, p)).start
                    == scene_instances_before(models, model_instances, k) + instances_before(
                    models[k].mesh_instances@,
                    (model_instances[k] as u32) as int,
                    j,
                )
                &&& call_instances(scene_call(models, model_instances, k, j, p)).end - call_instances(
                    scene_call(models, model_instances, k, j, p),
                ).start == models[k].mesh_instances@[j] * ((model_instances[k] as u32) as int)
            },
{
    let n = models.len() as int;
    lemma_scene_calls_at(models, model_instances, n);
    assert forall|k: int, j: int, p: int|
        0 <= k < models.len() && 0 <= j < models[k].meshes@.len() && 0 <= p
            < models[k].meshes@[j].primitives@.len() implies {
            &&& call_instances(#[trigger] scene_call(models, model_instances, k, j, p)).start
                == scene_instances_before(models, model_instances, k) + instances_before(
                models[k].mesh_instances@,
                (model_instances[k] as u32) as int,
                j,
            )
            &&& call_instances(scene_call(models, model_instances, k, j, p)).end - call_instances(
                scene_call(models, model_instances, k, j, p),
            ).start == models[k].mesh_instances@[j] * ((model_instances[k] as u32) as int)
        } by {
        let mk = models[k];
        let off = scene_offset(models, model_instances, k);
        let count = drawn_count(model_instances, k);
        assert(model_drawable(mk, off, count));
        lemma_model_calls_at(mk, off, count, mk.meshes@.len() as int);
        lemma_mesh_calls_monotone(mk, j + 1, mk.meshes@.len() as int);
        lemma_scene_offset_is_instances_before(models, model_instances, k);
        assert(count >= 0);
        lemma_instances_before_monotone(mk.mesh_instances@, count, j + 1, mk.meshes@.len() as int);
        lemma_instances_before_monotone(mk.mesh_instances@, count, j, j + 1);
        let q = mesh_calls_before(mk, j) + p;
        lemma_mesh_calls_monotone(mk, 0, j);
        let st = off + instances_before(mk.mesh_instances@, count, j);
        let en = st + mk.mesh_instances@[j] * count;
        assert(mesh_calls_before(mk, j + 1) == mesh_calls_before(mk, j) + mk.meshes@[j].primitives@.len());
        assert(q < mesh_calls_before(mk, mk.meshes@.len() as int));
        assert(scene_call(models, model_instances, k, j, p) == scene_draw_calls(models, model_instances, n)[
            scene_calls_before(models, k) + q]);
        assert(scene_call(models, model_instances, k, j, p) == model_draw_calls(mk, off, count)[q]);
        lemma_scene_offset_nonneg(models, model_instances, k);
        assert(model_draw_calls(mk, off, count)[q] == primitive_draw_call(
            mk.meshes@[j].primitives@[p],
            st as u32,
            en as u32,
        ));
        assert(instances_before(mk.mesh_instances@, count, j + 1) == instances_before(
            mk.mesh_instances@,
            count,
            j,
        ) + mk.mesh_instances@[j] * count);
        assert(0 <= st <= en <= u32::MAX);
        assert(call_instances(primitive_draw_call(mk.meshes@[j].primitives@[p], st as u32, en as u32))
            == Range { start: st as u32, end: en as u32 });
        assert(count == (model_instances[k] as u32) as int);
    }
}

} // verus!
