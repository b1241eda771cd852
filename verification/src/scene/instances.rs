//! The per-instance transform data of a scene: one local transform for every
//! instance of every mesh of every model instance, one global transform per
//! model instance, and the joint transforms of skinned models.
use crate::model::animation::animation::AnimationFrame;
use crate::model::model::{GModel, LocalTransform};
use crate::model::util::InitializationError;
use crate::scene::scene_scaffolds::{AdditionalScaffoldModelInstances, SceneScaffold, ScaffoldGTOverride};
use crate::scene::util::{
    lemma_sum_u32_nonneg, lemma_sum_u32_prefix, lemma_sum_usize_nonneg, lemma_sum_usize_prefix,
    sum_u32, sum_usize,
    total_u32, total_usize,
};
use vstd::prelude::*;
use vstd::slice::{slice_subrange, slice_to_vec};

verus! {

/// The transform data of the scene's model instances; `M` is the matrix type.
///
/// The local transforms of model `m` start at
/// `model_instances_local_offsets[m]`; within a model they are grouped by
/// mesh instance, each group holding one transform per instance of the
/// model.
pub struct InstanceData<M> {
    pub model_instances: Vec<usize>,
    pub local_transform_data: Vec<LocalTransform<M>>,
    pub global_transform_data: Vec<M>,
    pub model_instances_local_offsets: Vec<usize>,
    pub joint_global_transforms: Vec<M>,
}

/// The contents of [`InstanceData`] as sequences.
pub struct InstanceView<M> {
    pub model_instances: Seq<usize>,
    pub local: Seq<LocalTransform<M>>,
    pub global: Seq<M>,
    pub offsets: Seq<usize>,
    pub joints: Seq<M>,
}

impl<M> View for InstanceData<M> {
    type V = InstanceView<M>;

    open spec fn view(&self) -> InstanceView<M> {
        InstanceView {
            model_instances: self.model_instances@,
            local: self.local_transform_data@,
            global: self.global_transform_data@,
            offsets: self.model_instances_local_offsets@,
            joints: self.joint_global_transforms@,
        }
    }
}

/// `data` with the transforms at `offset .. offset + ms.len()` replaced by
/// `ms`, each keeping the model index found at `offset`.
pub open spec fn write_mesh_slice<M>(data: Seq<LocalTransform<M>>, offset: int, ms: Seq<M>) -> Seq<
    LocalTransform<M>,
> {
    Seq::new(
        data.len(),
        |j: int|
            if offset <= j < offset + ms.len() {
                LocalTransform { transform_matrix: ms[j - offset], model_index: data[offset].model_index }
            } else {
                data[j]
            },
    )
}

/// The first `n` mesh slices of a frame written one after the other.
pub open spec fn apply_mesh_slices<M>(
    data: Seq<LocalTransform<M>>,
    offsets: Seq<usize>,
    slices: Seq<Seq<M>>,
    n: int,
) -> Seq<LocalTransform<M>>
    decreases n,
{
    if n <= 0 {
        data
    } else {
        write_mesh_slice(
            apply_mesh_slices(data, offsets, slices, n - 1),
            offsets[n - 1] as int,
            slices[n - 1],
        )
    }
}

/// The first `m` joint transforms of one skin written at their joint
/// indices, one after the other.
pub open spec fn write_joints<M>(joints: Seq<M>, ids: Seq<usize>, ts: Seq<M>, m: int) -> Seq<M>
    decreases m,
{
    if m <= 0 {
        joints
    } else {
        write_joints(joints, ids, ts, m - 1).update(ids[m - 1] as int, ts[m - 1])
    }
}

/// The joint transforms of the first `n` skins of a frame written.
pub open spec fn apply_joint_slices<M>(
    joints: Seq<M>,
    ids: Seq<Seq<usize>>,
    ts: Seq<Seq<M>>,
    n: int,
) -> Seq<M>
    decreases n,
{
    if n <= 0 {
        joints
    } else {
        write_joints(
            apply_joint_slices(joints, ids, ts, n - 1),
            ids[n - 1],
            ts[n - 1],
            ids[n - 1].len() as int,
        )
    }
}

/// The contents of a sequence of slices.
pub open spec fn slice_views<T>(v: Seq<&[T]>) -> Seq<Seq<T>> {
    Seq::new(v.len(), |i: int| v[i]@)
}

/// A frame can be written into the data: every mesh slice has an offset,
/// starts within the local transforms and fits in them, every skin has its
/// joint transforms, and every joint index is within the joint transforms.
pub open spec fn frame_fits<M>(
    frame: AnimationFrame<M>,
    local_len: int,
    joints_len: int,
) -> bool {
    let slices = slice_views(frame.mesh_transform_slices@);
    let ids = slice_views(frame.joint_ids@);
    let ts = slice_views(frame.joint_transform_slices@);
    &&& frame.lt_offsets@.len() <= slices.len()
    &&& forall|k: int|
        0 <= k < frame.lt_offsets@.len() ==> #[trigger] frame.lt_offsets@[k] < local_len
            && frame.lt_offsets@[k] + slices[k].len() <= local_len
    &&& ids.len() <= ts.len()
    &&& forall|s: int|
        0 <= s < ids.len() ==> (#[trigger] ids[s]).len() <= ts[s].len() && forall|i: int|
            0 <= i < ids[s].len() ==> #[trigger] ids[s][i] < joints_len
}

/// `n` copies of `t`'s matrix, for the model instances numbered `base`,
/// `base + 1`, ...
pub open spec fn copies<M>(t: LocalTransform<M>, n: int, base: int) -> Seq<LocalTransform<M>> {
    Seq::new(
        n as nat,
        |i: int| LocalTransform { transform_matrix: t.transform_matrix, model_index: (base + i) as u32 },
    )
}

/// The first `k` groups of a model's local transforms (each `c` long), each
/// followed by `n` copies of its first transform for the new model
/// instances `base`, `base + 1`, ...
pub open spec fn expanded_groups<M>(
    block: Seq<LocalTransform<M>>,
    c: int,
    n: int,
    base: int,
    k: int,
) -> Seq<LocalTransform<M>>
    decreases k,
{
    if k <= 0 {
        Seq::empty()
    } else {
        expanded_groups(block, c, n, base, k - 1) + block.subrange((k - 1) * c, k * c) + copies(
            block[(k - 1) * c],
            n,
            base,
        )
    }
}

/// `n` new instances of a model with mesh instance counts `mesh_instances`
/// can be added at model index `mi` without failing: the indices and the
/// model's transforms are within bounds, the sums and every intermediate
/// offset fit, and a model with mesh instances has an instance to copy
/// from when instances are added.
pub open spec fn can_add_instances<M>(
    v: InstanceView<M>,
    mesh_instances: Seq<u32>,
    mi: int,
    n: int,
) -> bool {
    let c = v.model_instances[mi] as int;
    let k = sum_u32(mesh_instances);
    let t = sum_usize(v.model_instances);
    let io = v.offsets[mi] as int;
    &&& 0 <= mi < v.model_instances.len()
    &&& mi < v.offsets.len()
    &&& k <= u32::MAX
    &&& t <= usize::MAX
    &&& io < usize::MAX
    &&& io + k * c <= v.local.len()
    &&& (c > 0 || n == 0 || k == 0)
    &&& k * (c + n) <= usize::MAX
    &&& (k > 0 && n > 0 ==> t + n - 1 <= usize::MAX)
    &&& v.local.len() + k * n <= usize::MAX
    &&& forall|q: int|
        mi + 1 <= q < v.offsets.len() ==> #[trigger] v.offsets[q] + k * n <= usize::MAX
    &&& instances_through(v.model_instances, mi) <= v.global.len()
    &&& v.global.len() + n <= usize::MAX
    &&& c + n <= usize::MAX
}

/// The local transforms after adding `n` instances of model `mi`: within
/// the model's local transforms, each mesh instance's group (one transform
/// per existing instance) is followed by `n` copies of its first transform,
/// numbered from the total count of model instances on.
pub open spec fn expanded_local<M>(v: InstanceView<M>, mesh_instances: Seq<u32>, mi: int, n: int) -> Seq<
    LocalTransform<M>,
> {
    let c = v.model_instances[mi] as int;
    let k = sum_u32(mesh_instances);
    let t = sum_usize(v.model_instances);
    let io = v.offsets[mi] as int;
    let block = v.local.subrange(io, io + k * c);
    v.local.subrange(0, io) + expanded_groups(block, c, n, t, k) + v.local.subrange(
        io + k * c,
        v.local.len() as int,
    )
}

/// The offsets after adding `n` instances of model `mi`: the offset of
/// every later model grows by the number of new local transforms.
pub open spec fn moved_offsets<M>(v: InstanceView<M>, mesh_instances: Seq<u32>, mi: int, n: int) -> Seq<
    usize,
> {
    let k = sum_u32(mesh_instances);
    Seq::new(
        v.offsets.len(),
        |q: int|
            if q >= mi + 1 {
                (v.offsets[q] + k * n) as usize
            } else {
                v.offsets[q]
            },
    )
}

/// The instances of the models up to and including model `mi`: where the
/// global transforms of the instances after model `mi`'s start.
pub open spec fn instances_through(model_instances: Seq<usize>, mi: int) -> int {
    sum_usize(model_instances.subrange(0, mi + 1))
}

/// The global transforms with `transforms` inserted right after the
/// instances of model `mi`.
pub open spec fn inserted_globals<M>(v: InstanceView<M>, mi: int, transforms: Seq<M>) -> Seq<M> {
    let e = instances_through(v.model_instances, mi);
    v.global.subrange(0, e) + transforms + v.global.subrange(e, v.global.len() as int)
}

/// The data after adding the model instances with global transforms
/// `transforms` at model index `mi`: the local transforms are expanded, the
/// offsets of the later models moved, the global transforms inserted right
/// after those of the model's instances and the model's instance count
/// raised.
pub open spec fn with_added_instances<M>(
    v: InstanceView<M>,
    mesh_instances: Seq<u32>,
    mi: int,
    transforms: Seq<M>,
) -> InstanceView<M> {
    let n = transforms.len() as int;
    InstanceView {
        model_instances: v.model_instances.update(mi, (v.model_instances[mi] + n) as usize),
        local: expanded_local(v, mesh_instances, mi, n),
        global: inserted_globals(v, mi, transforms),
        offsets: moved_offsets(v, mesh_instances, mi, n),
        joints: v.joints,
    }
}

/// The mesh instances of the first `q` models.
pub open spec fn mesh_counts_before<N>(models: Seq<GModel<N>>, q: int) -> int
    decreases q,
{
    if q <= 0 {
        0
    } else {
        mesh_counts_before(models, q - 1) + sum_u32(models[q - 1].mesh_instances@)
    }
}

proof fn lemma_mesh_counts_monotone<N>(models: Seq<GModel<N>>, i: int, j: int)
    requires
        0 <= i <= j,
    ensures
        0 <= mesh_counts_before(models, i) <= mesh_counts_before(models, j),
    decreases j,
{
    if j > 0 {
        let k = if i < j {
            i
        } else {
            j - 1
        };
        lemma_mesh_counts_monotone(models, k, j - 1);
        lemma_sum_u32_nonneg(models[j - 1].mesh_instances@);
    }
}

/// The slot of each model's first local transform when each model has one
/// instance: the mesh instances of the models before it; then the total.
pub open spec fn mesh_count_offsets<N>(models: Seq<GModel<N>>) -> Seq<usize> {
    Seq::new(models.len() + 1, |q: int| mesh_counts_before(models, q) as usize)
}

/// One instance of each model, at the origin.
pub open spec fn default_instances<M, N>(
    models: Seq<GModel<N>>,
    local: Seq<LocalTransform<M>>,
    joints: Seq<M>,
    identity: M,
) -> InstanceView<M> {
    InstanceView {
        model_instances: Seq::new(models.len(), |q: int| 1usize),
        local,
        global: Seq::new(models.len(), |q: int| identity),
        offsets: mesh_count_offsets(models),
        joints,
    }
}

/// The global transforms with the overrides `0 .. k` written in order.
pub open spec fn apply_overrides<M>(g: Seq<M>, os: Seq<ScaffoldGTOverride<M>>, k: int) -> Seq<M>
    decreases k,
{
    if k <= 0 {
        g
    } else {
        apply_overrides(g, os, k - 1).update(os[k - 1].model_idx as int, os[k - 1].transform)
    }
}

proof fn lemma_overrides_written<M>(g: Seq<M>, os: Seq<ScaffoldGTOverride<M>>, k: int)
    requires
        0 <= k <= os.len(),
        forall|i: int| 0 <= i < os.len() ==> (#[trigger] os[i]).model_idx < g.len(),
    ensures
        apply_overrides(g, os, k).len() == g.len(),
        forall|i: int|
            0 <= i < k && (forall|i2: int| i < i2 < k ==> #[trigger] os[i2].model_idx != os[i].model_idx)
                ==> apply_overrides(g, os, k)[#[trigger] os[i].model_idx as int] == os[i].transform,
        forall|m: int|
            0 <= m < g.len() && (forall|i: int| 0 <= i < k ==> #[trigger] os[i].model_idx != m)
                ==> #[trigger] apply_overrides(g, os, k)[m] == g[m],
    decreases k,
{
    if k > 0 {
        lemma_overrides_written(g, os, k - 1);
        let prev = apply_overrides(g, os, k - 1);
        let last = os[k - 1];
        assert(last.model_idx < g.len());
        assert forall|i: int|
            0 <= i < k && (forall|i2: int| i < i2 < k ==> #[trigger] os[i2].model_idx != os[i].model_idx)
                implies apply_overrides(g, os, k)[#[trigger] os[i].model_idx as int] == os[i].transform by {
            if i < k - 1 {
                assert(os[k - 1].model_idx != os[i].model_idx);
                assert(forall|i2: int| i < i2 < k - 1 ==> #[trigger] os[i2].model_idx != os[i].model_idx);
            }
        }
        assert forall|m: int|
            0 <= m < g.len() && (forall|i: int| 0 <= i < k ==> #[trigger] os[i].model_idx != m)
                implies #[trigger] apply_overrides(g, os, k)[m] == g[m] by {
            assert(os[k - 1].model_idx != m);
            assert(forall|i: int| 0 <= i < k - 1 ==> #[trigger] os[i].model_idx != m);
        }
    }
}

/// Building from a scaffold puts each model at the origin unless an override
/// names it: a model that overrides name gets the transform of the last
/// override that names it, whatever the other overrides say, and a model that
/// no override names keeps the identity.
pub proof fn lemma_scaffold_overrides<M, N>(
    scaffold: SceneScaffold<M>,
    models: Seq<GModel<N>>,
    local: Seq<LocalTransform<M>>,
    joints: Seq<M>,
    identity: M,
)
    requires
        forall|i: int|
            0 <= i < scaffold.global_transform_overrides@.len() ==> (
            #[trigger] scaffold.global_transform_overrides@[i]).model_idx < models.len(),
    ensures
        ({
            let g = scaffold_base(scaffold, models, local, joints, identity).global;
            let os = scaffold.global_transform_overrides@;
            &&& g.len() == models.len()
            &&& forall|i: int|
                0 <= i < os.len() && (forall|i2: int|
                    i < i2 < os.len() ==> #[trigger] os[i2].model_idx != os[i].model_idx)
                    ==> g[#[trigger] os[i].model_idx as int] == os[i].transform
            &&& forall|m: int|
                0 <= m < models.len() && (forall|i: int| 0 <= i < os.len() ==> #[trigger] os[i].model_idx != m)
                    ==> #[trigger] g[m] == identity
        }),
{
    let os = scaffold.global_transform_overrides@;
    let g0 = Seq::new(models.len(), |q: int| identity);
    lemma_overrides_written(g0, os, os.len() as int);
}

/// The data after the additions `0 .. k`, one after the other.
pub open spec fn apply_additions<M, N>(
    v: InstanceView<M>,
    models: Seq<GModel<N>>,
    adds: Seq<AdditionalScaffoldModelInstances<M>>,
    k: int,
) -> InstanceView<M>
    decreases k,
{
    if k <= 0 {
        v
    } else {
        with_added_instances(
            apply_additions(v, models, adds, k - 1),
            models[adds[k - 1].model_index as int].mesh_instances@,
            adds[k - 1].model_index as int,
            adds[k - 1].global_transforms@,
        )
    }
}

/// Each of the additions `0 .. k` can be made on the data that the earlier
/// ones leave.
pub open spec fn additions_defined<M, N>(
    v: InstanceView<M>,
    models: Seq<GModel<N>>,
    adds: Seq<AdditionalScaffoldModelInstances<M>>,
    k: int,
) -> bool
    decreases k,
{
    k <= 0 || {
        &&& additions_defined(v, models, adds, k - 1)
        &&& adds[k - 1].model_index < models.len()
        &&& can_add_instances(
            apply_additions(v, models, adds, k - 1),
            models[adds[k - 1].model_index as int].mesh_instances@,
            adds[k - 1].model_index as int,
            adds[k - 1].global_transforms@.len() as int,
        )
    }
}

/// The data a scaffold starts from: one instance of each model, at the
/// origin unless an override gives it a global transform.
pub open spec fn scaffold_base<M, N>(
    scaffold: SceneScaffold<M>,
    models: Seq<GModel<N>>,
    local: Seq<LocalTransform<M>>,
    joints: Seq<M>,
    identity: M,
) -> InstanceView<M> {
    InstanceView {
        global: apply_overrides(
            Seq::new(models.len(), |q: int| identity),
            scaffold.global_transform_overrides@,
            scaffold.global_transform_overrides@.len() as int,
        ),
        ..default_instances(models, local, joints, identity)
    }
}

proof fn lemma_additions_defined_prefix<M, N>(
    v: InstanceView<M>,
    models: Seq<GModel<N>>,
    adds: Seq<AdditionalScaffoldModelInstances<M>>,
    k: int,
    total: int,
)
    requires
        k <= total,
        additions_defined(v, models, adds, total),
    ensures
        additions_defined(v, models, adds, k),
    decreases total - k,
{
    if k < total {
        lemma_additions_defined_prefix(v, models, adds, k + 1, total);
    }
}

pub proof fn lemma_expanded_len<M>(block: Seq<LocalTransform<M>>, c: int, n: int, base: int, k: int)
    requires
        0 <= k,
        0 <= c,
        0 <= n,
        k * c <= block.len(),
    ensures
        expanded_groups(block, c, n, base, k).len() == k * (c + n),
    decreases k,
{
    if k > 0 {
        assert((k - 1) * c <= k * c) by (nonlinear_arith)
            requires
                k >= 1,
                c >= 0,
        ;
        assert(0 <= (k - 1) * c) by (nonlinear_arith)
            requires
                k >= 1,
                c >= 0,
        ;
        lemma_expanded_len(block, c, n, base, k - 1);
        assert((k - 1) * (c + n) + c + n == k * (c + n)) by (nonlinear_arith);
        assert(k * c - (k - 1) * c == c) by (nonlinear_arith);
        assert(block.subrange((k - 1) * c, k * c).len() == c);
        assert(copies(block[(k - 1) * c], n, base).len() == n);
    } else {
        assert(k * (c + n) == 0) by (nonlinear_arith)
            requires
                k == 0,
        ;
    }
}

proof fn lemma_sum_usize_update(s: Seq<usize>, i: int, x: usize)
    requires
        0 <= i < s.len(),
    ensures
        sum_usize(s.update(i, x)) == sum_usize(s) - s[i] + x,
    decreases s.len(),
{
    if i < s.len() - 1 {
        lemma_sum_usize_update(s.drop_last(), i, x);
        assert(s.update(i, x).drop_last() =~= s.drop_last().update(i, x));
    } else {
        assert(s.update(i, x).drop_last() =~= s.drop_last());
    }
}

/// Adding `n` instances of a model adds exactly `n` model instances in all,
/// `n` global transforms, and `n` local transforms for every mesh instance
/// of the model; the local transforms of the models before and after it are
/// kept, the latter shifted by the number of new ones.
pub proof fn lemma_added_instances_counts<M>(
    v: InstanceView<M>,
    mesh_instances: Seq<u32>,
    mi: int,
    transforms: Seq<M>,
)
    requires
        can_add_instances(v, mesh_instances, mi, transforms.len() as int),
    ensures
        ({
            let w = with_added_instances(v, mesh_instances, mi, transforms);
            let k = sum_u32(mesh_instances);
            let n = transforms.len() as int;
            let io = v.offsets[mi] as int;
            let c = v.model_instances[mi] as int;
            &&& sum_usize(w.model_instances) == sum_usize(v.model_instances) + n
            &&& w.model_instances[mi] == v.model_instances[mi] + n
            &&& w.global.len() == v.global.len() + n
            &&& w.local.len() == v.local.len() + k * n
            &&& forall|q: int| 0 <= q < io ==> #[trigger] w.local[q] == v.local[q]
            &&& forall|q: int|
                io + k * c <= q < v.local.len() ==> #[trigger] w.local[q + k * n] == v.local[q]
        }),
{
    let k = sum_u32(mesh_instances);
    let n = transforms.len() as int;
    let io = v.offsets[mi] as int;
    let c = v.model_instances[mi] as int;
    let t = sum_usize(v.model_instances);
    let block = v.local.subrange(io, io + k * c);
    lemma_sum_u32_nonneg(mesh_instances);
    lemma_sum_usize_nonneg(v.model_instances.subrange(0, mi + 1));
    lemma_sum_usize_update(v.model_instances, mi, (c + n) as usize);
    assert(k * c >= 0) by (nonlinear_arith)
        requires
            k >= 0,
            c >= 0,
    ;
    lemma_expanded_len(block, c, n, t, k);
    assert(k * (c + n) == k * c + k * n) by (nonlinear_arith);
    let w = with_added_instances(v, mesh_instances, mi, transforms);
    let e = expanded_groups(block, c, n, t, k);
    assert forall|q: int| io + k * c <= q < v.local.len() implies #[trigger] w.local[q + k * n]
        == v.local[q] by {
        assert(w.local[q + k * n] == v.local.subrange(io + k * c, v.local.len() as int)[q - io - k
            * c]);
    }
}

/// Writing a frame's mesh slices never changes how many local transforms
/// there are.
pub proof fn lemma_frame_keeps_length<M>(
    data: Seq<LocalTransform<M>>,
    offsets: Seq<usize>,
    slices: Seq<Seq<M>>,
    n: int,
)
    ensures
        apply_mesh_slices(data, offsets, slices, n).len() == data.len(),
    decreases n,
{
    if n > 0 {
        lemma_frame_keeps_length(data, offsets, slices, n - 1);
    }
}

/// A mesh slice written at `offset` replaces exactly the transforms at
/// `offset .. offset + ms.len()`: their matrices become the slice's, their
/// model index becomes the one found at `offset`, and every other transform
/// is kept.
pub proof fn lemma_mesh_slice_window<M>(data: Seq<LocalTransform<M>>, offset: int, ms: Seq<M>)
    requires
        0 <= offset < data.len(),
        offset + ms.len() <= data.len(),
    ensures
        write_mesh_slice(data, offset, ms).len() == data.len(),
        forall|q: int|
            offset <= q < offset + ms.len() ==> (#[trigger] write_mesh_slice(data, offset, ms)[q]).transform_matrix
                == ms[q - offset] && write_mesh_slice(data, offset, ms)[q].model_index
                == data[offset].model_index,
        forall|q: int|
            0 <= q < data.len() && !(offset <= q < offset + ms.len()) ==> #[trigger] write_mesh_slice(
                data,
                offset,
                ms,
            )[q] == data[q],
{
}

impl<M: Copy> InstanceData<M> {
    /// Instance data from its parts.
    pub fn from_parts(
        model_instances: Vec<usize>,
        model_instances_local_offsets: Vec<usize>,
        local_transform_data: Vec<LocalTransform<M>>,
        global_transform_data: Vec<M>,
        joint_global_transforms: Vec<M>,
    ) -> (r: Self)
        ensures
            r.model_instances@ == model_instances@,
            r.model_instances_local_offsets@ == model_instances_local_offsets@,
            r.local_transform_data@ == local_transform_data@,
            r.global_transform_data@ == global_transform_data@,
            r.joint_global_transforms@ == joint_global_transforms@,
    {
        Self {
            model_instances,
            local_transform_data,
            global_transform_data,
            model_instances_local_offsets,
            joint_global_transforms,
        }
    }

    /// The offset of the local transforms of instance `instance_idx` of model
    /// `model_idx`, and the model's mesh instance count (the model's local
    /// transforms divided among its instances).
    pub fn get_instance_local_offset(&self, instance_idx: usize, model_idx: usize) -> (r: (
        usize,
        usize,
    ))
        requires
            model_idx + 1 < self.model_instances_local_offsets@.len(),
            model_idx < self.model_instances@.len(),
            self.model_instances@[model_idx as int] > 0,
            self.model_instances_local_offsets@[model_idx as int]
                <= self.model_instances_local_offsets@[model_idx + 1],
            self.model_instances_local_offsets@[model_idx as int] + instance_idx * ((
            self.model_instances_local_offsets@[model_idx + 1]
                - self.model_instances_local_offsets@[model_idx as int])
                / (self.model_instances@[model_idx as int] as int)) <= usize::MAX,
        ensures
            r.1 == (self.model_instances_local_offsets@[model_idx + 1]
                - self.model_instances_local_offsets@[model_idx as int])
                / (self.model_instances@[model_idx as int] as int),
            r.0 == self.model_instances_local_offsets@[model_idx as int] + instance_idx * r.1,
    {
        let offsets_len = self.model_instances_local_offsets.len();
        assert(model_idx + 1 < offsets_len);
        let model_local_offset = self.model_instances_local_offsets[model_idx];
        let model_mesh_count = (self.model_instances_local_offsets[model_idx + 1]
            - model_local_offset) / self.model_instances[model_idx];
        (model_local_offset + (instance_idx * model_mesh_count), model_mesh_count)
    }

    /// Writes an animation frame: each mesh slice of the frame replaces the
    /// local transforms from its offset on, keeping the model index found at
    /// the offset; then each joint transform replaces the joint transform at
    /// its joint index. Slices are written in order, so a later one wins
    /// where two overlap.
    pub fn apply_animation_frame_unchecked(&mut self, animation_frame: AnimationFrame<M>)
        requires
            frame_fits(
                animation_frame,
                old(self).local_transform_data@.len() as int,
                old(self).joint_global_transforms@.len() as int,
            ),
        ensures
            final(self).local_transform_data@ == apply_mesh_slices(
                old(self).local_transform_data@,
                animation_frame.lt_offsets@,
                slice_views(animation_frame.mesh_transform_slices@),
                animation_frame.lt_offsets@.len() as int,
            ),
            final(self).joint_global_transforms@ == apply_joint_slices(
                old(self).joint_global_transforms@,
                slice_views(animation_frame.joint_ids@),
                slice_views(animation_frame.joint_transform_slices@),
                animation_frame.joint_ids@.len() as int,
            ),
            final(self).model_instances@ == old(self).model_instances@,
            final(self).global_transform_data@ == old(self).global_transform_data@,
            final(self).model_instances_local_offsets@ == old(self).model_instances_local_offsets@,
    {
        let ghost offsets = animation_frame.lt_offsets@;
        let ghost slices = slice_views(animation_frame.mesh_transform_slices@);
        let ghost ids = slice_views(animation_frame.joint_ids@);
        let ghost ts = slice_views(animation_frame.joint_transform_slices@);
        let ghost local0 = self.local_transform_data@;
        let ghost joints0 = self.joint_global_transforms@;
        let frame_count = animation_frame.lt_offsets.len();
        let local_len = self.local_transform_data.len();
        let mut idx: usize = 0;
        while idx < frame_count
            invariant
                idx <= frame_count,
                frame_count == offsets.len(),
                offsets == animation_frame.lt_offsets@,
                slices == slice_views(animation_frame.mesh_transform_slices@),
                frame_fits(animation_frame, local0.len() as int, joints0.len() as int),
                self.local_transform_data@ == apply_mesh_slices(local0, offsets, slices, idx as int),
                self.local_transform_data@.len() == local0.len(),
                local_len == local0.len(),
                self.joint_global_transforms@ == joints0,
                self.model_instances@ == old(self).model_instances@,
                self.global_transform_data@ == old(self).global_transform_data@,
                self.model_instances_local_offsets@ == old(self).model_instances_local_offsets@,
            decreases frame_count - idx,
        {
            let offset = animation_frame.lt_offsets[idx];
            let t_slices = animation_frame.mesh_transform_slices[idx];
            let model_id = self.local_transform_data[offset].model_index;
            let ghost base = self.local_transform_data@;
            assert(t_slices@ == slices[idx as int]);
            let mut i: usize = 0;
            while i < t_slices.len()
                invariant
                    i <= t_slices@.len(),
                    offset + t_slices@.len() <= base.len(),
                    offset < base.len(),
                    base.len() == local_len,
                    model_id == base[offset as int].model_index,
                    self.local_transform_data@.len() == base.len(),
                    forall|j: int|
                        0 <= j < base.len() ==> #[trigger] self.local_transform_data@[j] == if offset
                            <= j < offset + i {
                            LocalTransform { transform_matrix: t_slices@[j - offset], model_index: model_id }
                        } else {
                            base[j]
                        },
                    self.joint_global_transforms@ == joints0,
                    self.model_instances@ == old(self).model_instances@,
                    self.global_transform_data@ == old(self).global_transform_data@,
                    self.model_instances_local_offsets@ == old(
                        self,
                    ).model_instances_local_offsets@,
                decreases t_slices@.len() - i,
            {
                self.local_transform_data[offset + i] = LocalTransform {
                    transform_matrix: t_slices[i],
                    model_index: model_id,
                };
                i += 1;
            }
            proof {
                assert(self.local_transform_data@ =~= write_mesh_slice(
                    base,
                    offset as int,
                    slices[idx as int],
                ));
            }
            idx += 1;
        }
        let skin_count = animation_frame.joint_ids.len();
        let mut slice_index: usize = 0;
        while slice_index < skin_count
            invariant
                slice_index <= skin_count,
                skin_count == ids.len(),
                ids == slice_views(animation_frame.joint_ids@),
                ts == slice_views(animation_frame.joint_transform_slices@),
                frame_fits(animation_frame, local0.len() as int, joints0.len() as int),
                self.joint_global_transforms@ == apply_joint_slices(
                    joints0,
                    ids,
                    ts,
                    slice_index as int,
                ),
                self.joint_global_transforms@.len() == joints0.len(),
                self.local_transform_data@ == apply_mesh_slices(
                    local0,
                    offsets,
                    slices,
                    offsets.len() as int,
                ),
                self.model_instances@ == old(self).model_instances@,
                self.global_transform_data@ == old(self).global_transform_data@,
                self.model_instances_local_offsets@ == old(self).model_instances_local_offsets@,
            decreases skin_count - slice_index,
        {
            let joint_indices = animation_frame.joint_ids[slice_index];
            let joint_transforms = animation_frame.joint_transform_slices[slice_index];
            let ghost base = self.joint_global_transforms@;
            assert(joint_indices@ == ids[slice_index as int]);
            assert(joint_transforms@ == ts[slice_index as int]);
            let mut i: usize = 0;
            while i < joint_indices.len()
                invariant
                    i <= joint_indices@.len(),
                    joint_indices@.len() <= joint_transforms@.len(),
                    forall|q: int|
                        0 <= q < joint_indices@.len() ==> #[trigger] joint_indices@[q] < base.len(),
                    self.joint_global_transforms@ == write_joints(
                        base,
                        joint_indices@,
                        joint_transforms@,
                        i as int,
                    ),
                    self.joint_global_transforms@.len() == base.len(),
                    self.local_transform_data@ == apply_mesh_slices(
                        local0,
                        offsets,
                        slices,
                        offsets.len() as int,
                    ),
                    self.model_instances@ == old(self).model_instances@,
                    self.global_transform_data@ == old(self).global_transform_data@,
                    self.model_instances_local_offsets@ == old(
                        self,
                    ).model_instances_local_offsets@,
                decreases joint_indices@.len() - i,
            {
                let joint_index = joint_indices[i];
                self.joint_global_transforms[joint_index] = joint_transforms[i];
                i += 1;
            }
            slice_index += 1;
        }
    }

    /// Appends `new_instance_count` copies of the transform at `offset` right
    /// after the `base_transform_index` transforms that start at `offset`,
    /// numbered for the model instances `base_model_index`,
    /// `base_model_index + 1`, ...
    pub(crate) fn add_mesh_transforms(
        new_instance_count: usize,
        offset: usize,
        base_model_index: usize,
        base_transform_index: usize,
        transform_slice: Vec<LocalTransform<M>>,
    ) -> (r: Vec<LocalTransform<M>>)
        requires
            offset + base_transform_index <= transform_slice@.len(),
            new_instance_count > 0 ==> offset < transform_slice@.len(),
            offset + base_transform_index + new_instance_count <= usize::MAX,
            new_instance_count > 0 ==> base_model_index + new_instance_count - 1 <= usize::MAX,
        ensures
            r@ == transform_slice@.subrange(0, offset + base_transform_index) + copies(
                transform_slice@[offset as int],
                new_instance_count as int,
                base_model_index as int,
            ) + transform_slice@.subrange(
                offset + base_transform_index,
                transform_slice@.len() as int,
            ),
    {
        let ghost orig = transform_slice@;
        let ghost split = offset + base_transform_index;
        let mut slice = transform_slice;
        let mut i: usize = 0;
        while i < new_instance_count
            invariant
                i <= new_instance_count,
                split == offset + base_transform_index,
                split <= orig.len(),
                new_instance_count > 0 ==> offset < orig.len(),
                offset + base_transform_index + new_instance_count <= usize::MAX,
                new_instance_count > 0 ==> base_model_index + new_instance_count - 1 <= usize::MAX,
                slice@ == orig.subrange(0, split) + copies(
                    orig[offset as int],
                    i as int,
                    base_model_index as int,
                ) + orig.subrange(split, orig.len() as int),
                new_instance_count > 0 ==> slice@[offset as int].transform_matrix
                    == orig[offset as int].transform_matrix,
            decreases new_instance_count - i,
        {
            let mut new_transform = slice[offset];
            new_transform.model_index = (i + base_model_index) as u32;
            let ghost before = slice@;
            slice.insert(offset + i + base_transform_index, new_transform);
            proof {
                let next = orig.subrange(0, split) + copies(
                    orig[offset as int],
                    i + 1,
                    base_model_index as int,
                ) + orig.subrange(split, orig.len() as int);
                assert(slice@ =~= next);
            }
            i += 1;
        }
        slice
    }

    /// Expands the local transforms of model `model_index` for
    /// `new_instance_count` new instances and moves the offsets that follow.
    fn add_new_instances_local_data<N>(
        &mut self,
        model_index: usize,
        new_instance_count: usize,
        models: &Vec<GModel<N>>,
    ) -> (r: Result<(), InitializationError>)
        requires
            model_index < models@.len(),
            can_add_instances(
                old(self)@,
                models@[model_index as int].mesh_instances@,
                model_index as int,
                new_instance_count as int,
            ),
        ensures
            r is Ok,
            final(self).local_transform_data@ == expanded_local(
                old(self)@,
                models@[model_index as int].mesh_instances@,
                model_index as int,
                new_instance_count as int,
            ),
            final(self).model_instances_local_offsets@ == moved_offsets(
                old(self)@,
                models@[model_index as int].mesh_instances@,
                model_index as int,
                new_instance_count as int,
            ),
            final(self).model_instances@ == old(self).model_instances@,
            final(self).global_transform_data@ == old(self).global_transform_data@,
            final(self).joint_global_transforms@ == old(self).joint_global_transforms@,
    {
        let ghost v = self@;
        let n = new_instance_count;
        let mesh_instances = &models[model_index].mesh_instances;
        let c = self.model_instances[model_index];
        let k = total_u32(mesh_instances) as usize;
        let t = total_usize(&self.model_instances);
        let io = self.model_instances_local_offsets[model_index];
        proof {
            lemma_sum_u32_nonneg(mesh_instances@);
            assert(k * c <= k * (c + n)) by (nonlinear_arith)
                requires
                    k >= 0,
                    c >= 0,
                    n >= 0,
            ;
            assert(k * n <= k * (c + n)) by (nonlinear_arith)
                requires
                    k >= 0,
                    c >= 0,
                    n >= 0,
            ;
        }
        let end = k * c + io;
        let ghost block = v.local.subrange(io as int, io + k * c);
        let mut transform_slice = slice_to_vec(
            slice_subrange(self.local_transform_data.as_slice(), io, end),
        );
        assert(transform_slice@ == block);
        proof {
            assert(block.subrange(0, k * c) =~= block);
        }
        let mut offset: usize = 0;
        let ghost mut j: int = 0;
        let count_len = mesh_instances.len();
        let mut m: usize = 0;
        while m < count_len
            invariant
                m <= count_len,
                count_len == mesh_instances@.len(),
                sum_u32(mesh_instances@) == k,
                k <= u32::MAX,
                j == sum_u32(mesh_instances@.subrange(0, m as int)),
                0 <= j <= k,
                offset == j * (c + n),
                block.len() == k * c,
                c >= 0,
                (c > 0 || n == 0 || k == 0),
                k * (c + n) <= usize::MAX,
                (k > 0 && n > 0 ==> t + n - 1 <= usize::MAX),
                transform_slice@ == expanded_groups(block, c as int, n as int, t as int, j)
                    + block.subrange(j * c, k * c),
            decreases count_len - m,
        {
            let count = mesh_instances[m];
            proof {
                lemma_sum_u32_prefix(mesh_instances@, m + 1);
                assert(mesh_instances@.subrange(0, m + 1).drop_last() =~= mesh_instances@.subrange(
                    0,
                    m as int,
                ));
            }
            let mut q: u32 = 0;
            while q < count
                invariant
                    q <= count,
                    j == sum_u32(mesh_instances@.subrange(0, m as int)) + q,
                    sum_u32(mesh_instances@.subrange(0, m + 1)) == sum_u32(
                        mesh_instances@.subrange(0, m as int),
                    ) + count,
                    sum_u32(mesh_instances@.subrange(0, m + 1)) <= k,
                    0 <= j <= k,
                    offset == j * (c + n),
                    block.len() == k * c,
                    c >= 0,
                    (c > 0 || n == 0 || k == 0),
                    k * (c + n) <= usize::MAX,
                    (k > 0 && n > 0 ==> t + n - 1 <= usize::MAX),
                    transform_slice@ == expanded_groups(block, c as int, n as int, t as int, j)
                        + block.subrange(j * c, k * c),
                decreases count - q,
            {
                proof {
                    assert(j < k);
                    assert(j * c + c <= k * c) by (nonlinear_arith)
                        requires
                            j < k,
                            c >= 0,
                    ;
                    assert(j * c + c == (j + 1) * c) by (nonlinear_arith);
                    assert((j + 1) * (c + n) <= k * (c + n)) by (nonlinear_arith)
                        requires
                            j < k,
                            c + n >= 0,
                    ;
                    assert(j * (c + n) + c + n == (j + 1) * (c + n)) by (nonlinear_arith);
                    assert(0 <= j * c) by (nonlinear_arith)
                        requires
                            j >= 0,
                            c >= 0,
                    ;
                    lemma_expanded_len(block, c as int, n as int, t as int, j);
                    let e = expanded_groups(block, c as int, n as int, t as int, j);
                    let s = transform_slice@;
                    let split = offset + c;
                    assert(s.subrange(0, split) =~= e + block.subrange(j * c, (j + 1) * c));
                    assert(s.subrange(split, s.len() as int) =~= block.subrange(
                        (j + 1) * c,
                        k * c,
                    ));
                    if n > 0 {
                        assert(c > 0);
                        assert(s[offset as int] == block[j * c]);
                    }
                    assert(expanded_groups(block, c as int, n as int, t as int, j + 1) == e
                        + block.subrange(j * c, (j + 1) * c) + copies(block[j * c], n as int, t as int));
                }
                let ghost s_before = transform_slice@;
                transform_slice = Self::add_mesh_transforms(n, offset, t, c, transform_slice);
                proof {
                    let e = expanded_groups(block, c as int, n as int, t as int, j);
                    if n > 0 {
                        assert(s_before[offset as int] == block[j * c]);
                    } else {
                        assert(copies(s_before[offset as int], 0, t as int) =~= copies(
                            block[j * c],
                            0,
                            t as int,
                        ));
                    }
                    assert(transform_slice@ =~= expanded_groups(
                        block,
                        c as int,
                        n as int,
                        t as int,
                        j + 1,
                    ) + block.subrange((j + 1) * c, k * c));
                    j = j + 1;
                }
                offset += n + c;
                q += 1;
            }
            m += 1;
        }
        proof {
            assert(mesh_instances@.subrange(0, count_len as int) =~= mesh_instances@);
            assert(j == k);
            assert(block.subrange(k * c, k * c) =~= Seq::<LocalTransform<M>>::empty());
            assert(transform_slice@ =~= expanded_groups(block, c as int, n as int, t as int, k as int));
        }
        let mut tail = self.local_transform_data.split_off(end);
        self.local_transform_data.truncate(io);
        self.local_transform_data.append(&mut transform_slice);
        self.local_transform_data.append(&mut tail);
        proof {
            assert(self.local_transform_data@ =~= expanded_local(
                v,
                models@[model_index as int].mesh_instances@,
                model_index as int,
                n as int,
            ));
        }
        let num_new_mesh_instances = k * n;
        let offsets_len = self.model_instances_local_offsets.len();
        let mut q: usize = model_index + 1;
        while q < offsets_len
            invariant
                model_index + 1 <= q,
                offsets_len == v.offsets.len(),
                self.model_instances_local_offsets@.len() == offsets_len,
                num_new_mesh_instances == k * n,
                k == sum_u32(models@[model_index as int].mesh_instances@),
                io == v.offsets[model_index as int],
                forall|p: int|
                    model_index + 1 <= p < v.offsets.len() ==> #[trigger] v.offsets[p] + k * n <= usize::MAX,
                forall|p: int|
                    0 <= p < offsets_len ==> #[trigger] self.model_instances_local_offsets@[p] == if model_index
                        + 1 <= p < q {
                        (v.offsets[p] + k * n) as usize
                    } else {
                        v.offsets[p]
                    },
                self.local_transform_data@ == expanded_local(
                    v,
                    models@[model_index as int].mesh_instances@,
                    model_index as int,
                    n as int,
                ),
                self.model_instances@ == v.model_instances,
                self.global_transform_data@ == v.global,
                self.joint_global_transforms@ == v.joints,
            decreases offsets_len - q,
        {
            assert(self.model_instances_local_offsets@[q as int] == v.offsets[q as int]);
            assert(v.offsets[q as int] + k * n <= usize::MAX);
            self.model_instances_local_offsets[q] = self.model_instances_local_offsets[q]
                + num_new_mesh_instances;
            q += 1;
        }
        proof {
            assert(self.model_instances_local_offsets@ =~= moved_offsets(
                v,
                models@[model_index as int].mesh_instances@,
                model_index as int,
                n as int,
            ));
        }
        Ok(())
    }

    /// Inserts the global transforms of the new instances right after those
    /// of the model's instances, and raises the model's instance count.
    fn add_new_instances_global_data(
        &mut self,
        model_index: usize,
        global_transforms: Vec<M>,
    ) -> (r: Result<(), InitializationError>)
        requires
            model_index < old(self).model_instances@.len(),
            sum_usize(old(self).model_instances@) <= usize::MAX,
            instances_through(old(self).model_instances@, model_index as int) <= old(
                self,
            ).global_transform_data@.len(),
            old(self).global_transform_data@.len() + global_transforms@.len() <= usize::MAX,
            old(self).model_instances@[model_index as int] + global_transforms@.len() <= usize::MAX,
        ensures
            r is Ok,
            final(self).global_transform_data@ == inserted_globals(
                old(self)@,
                model_index as int,
                global_transforms@,
            ),
            final(self).model_instances@ == old(self).model_instances@.update(
                model_index as int,
                (old(self).model_instances@[model_index as int] + global_transforms@.len()) as usize,
            ),
            final(self).local_transform_data@ == old(self).local_transform_data@,
            final(self).model_instances_local_offsets@ == old(self).model_instances_local_offsets@,
            final(self).joint_global_transforms@ == old(self).joint_global_transforms@,
    {
        let ghost v = self@;
        let ghost gt = global_transforms@;
        let new_instance_count = global_transforms.len();
        let count = self.model_instances.len();
        let mut end: usize = 0;
        let mut i: usize = 0;
        while i <= model_index
            invariant
                i <= model_index + 1,
                model_index < count,
                count == self.model_instances@.len(),
                self.model_instances@ == v.model_instances,
                end == sum_usize(v.model_instances.subrange(0, i as int)),
                sum_usize(v.model_instances) <= usize::MAX,
            decreases model_index + 1 - i,
        {
            proof {
                lemma_sum_usize_prefix(v.model_instances, i + 1);
                assert(v.model_instances.subrange(0, i + 1).drop_last() =~= v.model_instances.subrange(
                    0,
                    i as int,
                ));
            }
            end += self.model_instances[i];
            i += 1;
        }
        let mut tail = self.global_transform_data.split_off(end);
        let mut transforms = global_transforms;
        self.global_transform_data.append(&mut transforms);
        self.global_transform_data.append(&mut tail);
        self.model_instances[model_index] = self.model_instances[model_index] + new_instance_count;
        proof {
            assert(self.global_transform_data@ =~= inserted_globals(v, model_index as int, gt));
        }
        Ok(())
    }

    /// Adds one instance of model `model_index` for each global transform:
    /// the model's local transforms are expanded with copies for the new
    /// instances, the offsets of the later models are moved, the global
    /// transforms go right after those of the model's instances and the
    /// model's instance count is raised.
    pub fn add_model_instance<N>(
        &mut self,
        models: &Vec<GModel<N>>,
        model_index: usize,
        global_transforms: Vec<M>,
    ) -> (r: Result<(), InitializationError>)
        requires
            model_index < models@.len(),
            can_add_instances(
                old(self)@,
                models@[model_index as int].mesh_instances@,
                model_index as int,
                global_transforms@.len() as int,
            ),
        ensures
            r is Ok,
            final(self)@ == with_added_instances(
                old(self)@,
                models@[model_index as int].mesh_instances@,
                model_index as int,
                global_transforms@,
            ),
    {
        let ghost v = self@;
        let count = global_transforms.len();
        let local_result = self.add_new_instances_local_data(model_index, count, models);
        let global_result = self.add_new_instances_global_data(model_index, global_transforms);
        proof {
            let w = with_added_instances(
                v,
                models@[model_index as int].mesh_instances@,
                model_index as int,
                global_transforms@,
            );
            assert(self.model_instances@ =~= w.model_instances);
            assert(self.global_transform_data@ =~= w.global);
            assert(self@ == w);
        }
        Ok(())
    }

    /// Instance data with one instance of each model, every one at the
    /// origin (`identity` is the identity matrix). The offset of each model is
    /// the slot of its first local transform, the mesh instances of the
    /// models before it; a last offset holds the total.
    pub fn default_from_scene<N>(
        models: &Vec<GModel<N>>,
        local_transform_data: Vec<LocalTransform<M>>,
        joint_transforms: Vec<M>,
        identity: M,
    ) -> (r: Self)
        requires
            forall|i: int|
                0 <= i < models@.len() ==> sum_u32(#[trigger] models@[i].mesh_instances@)
                    <= u32::MAX,
            mesh_counts_before(models@, models@.len() as int) <= usize::MAX,
        ensures
            r@ == default_instances(models@, local_transform_data@, joint_transforms@, identity),
    {
        let n = models.len();
        let mut total: usize = 0;
        let mut model_instances: Vec<usize> = Vec::new();
        let mut global_transform_data: Vec<M> = Vec::new();
        let mut model_instances_local_offsets: Vec<usize> = Vec::new();
        model_instances_local_offsets.push(0);
        let mut i: usize = 0;
        while i < n
            invariant
                i <= n,
                n == models@.len(),
                forall|q: int|
                    0 <= q < models@.len() ==> sum_u32(#[trigger] models@[q].mesh_instances@)
                        <= u32::MAX,
                model_instances@ =~= Seq::new(i as nat, |q: int| 1usize),
                global_transform_data@ =~= Seq::new(i as nat, |q: int| identity),
                model_instances_local_offsets@ =~= mesh_count_offsets(models@).subrange(0, i + 1),
                total == mesh_counts_before(models@, i as int),
                mesh_counts_before(models@, n as int) <= usize::MAX,
            decreases n - i,
        {
            proof {
                lemma_mesh_counts_monotone(models@, i + 1, n as int);
            }
            model_instances.push(1);
            global_transform_data.push(identity);
            let count = total_u32(&models[i].mesh_instances);
            total = total + count as usize;
            model_instances_local_offsets.push(total);
            i += 1;
        }
        proof {
            assert(mesh_count_offsets(models@).subrange(0, n + 1) =~= mesh_count_offsets(models@));
        }
        Self {
            model_instances,
            local_transform_data,
            global_transform_data,
            model_instances_local_offsets,
            joint_global_transforms: joint_transforms,
        }
    }

    /// Instance data for a scene scaffold: one instance of each model at
    /// the origin, the scaffold's overrides written on their models' global
    /// transforms, then the scaffold's further instances added in order.
    pub fn from_scaffold<N>(
        scaffold: &SceneScaffold<M>,
        local_transform_data: Vec<LocalTransform<M>>,
        joint_transforms: Vec<M>,
        models: &Vec<GModel<N>>,
        identity: M,
    ) -> (r: Result<Self, InitializationError>)
        requires
            forall|i: int|
                0 <= i < models@.len() ==> sum_u32(#[trigger] models@[i].mesh_instances@)
                    <= u32::MAX,
            mesh_counts_before(models@, models@.len() as int) <= usize::MAX,
            forall|i: int|
                0 <= i < scaffold.global_transform_overrides@.len()
                    ==> (#[trigger] scaffold.global_transform_overrides@[i]).model_idx
                    < models@.len(),
            additions_defined(
                scaffold_base(*scaffold, models@, local_transform_data@, joint_transforms@, identity),
                models@,
                scaffold.additional_instances@,
                scaffold.additional_instances@.len() as int,
            ),
        ensures
            r matches Ok(d) && d@ == apply_additions(
                scaffold_base(*scaffold, models@, local_transform_data@, joint_transforms@, identity),
                models@,
                scaffold.additional_instances@,
                scaffold.additional_instances@.len() as int,
            ),
            scaffold.additional_instances@.len() == 0 ==> (r matches Ok(d) && {
                let os = scaffold.global_transform_overrides@;
                &&& d.global_transform_data@.len() == models@.len()
                &&& forall|i: int|
                    0 <= i < os.len() && (forall|i2: int|
                        i < i2 < os.len() ==> #[trigger] os[i2].model_idx != os[i].model_idx)
                        ==> d.global_transform_data@[#[trigger] os[i].model_idx as int] == os[i].transform
                &&& forall|m: int|
                    0 <= m < models@.len() && (forall|i: int|
                        0 <= i < os.len() ==> #[trigger] os[i].model_idx != m)
                        ==> #[trigger] d.global_transform_data@[m] == identity
            }),
    {
        let ghost base = scaffold_base(
            *scaffold,
            models@,
            local_transform_data@,
            joint_transforms@,
            identity,
        );
        let mut instance_data = Self::default_from_scene(
            models,
            local_transform_data,
            joint_transforms,
            identity,
        );
        let overrides = scaffold.global_transform_overrides;
        let override_count = overrides.len();
        let mut o: usize = 0;
        while o < override_count
            invariant
                o <= override_count,
                override_count == overrides@.len(),
                overrides@ == scaffold.global_transform_overrides@,
                forall|i: int|
                    0 <= i < overrides@.len() ==> (#[trigger] overrides@[i]).model_idx
                        < models@.len(),
                instance_data.global_transform_data@ == apply_overrides(
                    Seq::new(models@.len(), |q: int| identity),
                    overrides@,
                    o as int,
                ),
                instance_data.global_transform_data@.len() == models@.len(),
                instance_data.model_instances@ == base.model_instances,
                instance_data.local_transform_data@ == base.local,
                instance_data.model_instances_local_offsets@ == base.offsets,
                instance_data.joint_global_transforms@ == base.joints,
            decreases override_count - o,
        {
            let gt_override = &overrides[o];
            instance_data.global_transform_data[gt_override.model_idx] = gt_override.transform;
            o += 1;
        }
        assert(instance_data@ == base);
        let additions = scaffold.additional_instances;
        let addition_count = additions.len();
        let mut a: usize = 0;
        while a < addition_count
            invariant
                a <= addition_count,
                addition_count == additions@.len(),
                additions@ == scaffold.additional_instances@,
                additions_defined(base, models@, additions@, addition_count as int),
                instance_data@ == apply_additions(base, models@, additions@, a as int),
            decreases addition_count - a,
        {
            proof {
                lemma_additions_defined_prefix(base, models@, additions@, a + 1, addition_count as int);
            }
            let additional_instance = &additions[a];
            let transforms = slice_to_vec(additional_instance.global_transforms);
            let result = instance_data.add_model_instance(
                models,
                additional_instance.model_index,
                transforms,
            );
            if let Err(e) = result {
                return Err(e);
            }
            a += 1;
        }
        proof {
            lemma_scaffold_overrides(*scaffold, models@, local_transform_data@, joint_transforms@, identity);
        }
        Ok(instance_data)
    }
}

} // verus!
