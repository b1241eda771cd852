//! The per-instance transform data of the scene builder: one local transform
//! for every mesh instance of every model instance, one global transform per
//! model instance, and the offset of each model's local transforms.
use crate::model::model::{GModel, LocalTransform};
use crate::model::util::InitializationError;
use crate::scene::instances::{expanded_groups, lemma_expanded_len, InstanceData};
use crate::scene::util::{
    lemma_sum_u32_nonneg, lemma_sum_u32_prefix, lemma_sum_usize_prefix, sum_u32, sum_usize, total_u32,
    total_usize,
};
use vstd::prelude::*;

verus! {

/// The transform data of the scene builder's model instances; `M` is the
/// matrix type.
pub struct InstanceData2<M> {
    pub model_instances: Vec<usize>,
    pub local_transform_data: Vec<LocalTransform<M>>,
    pub global_transform_data: Vec<M>,
    pub instance_local_offsets: Vec<usize>,
}

/// The local transforms with their model indices raised by `d`.
pub open spec fn shifted<M>(s: Seq<LocalTransform<M>>, d: u32) -> Seq<LocalTransform<M>> {
    s.map_values(
        |t: LocalTransform<M>|
            LocalTransform { transform_matrix: t.transform_matrix, model_index: (t.model_index + d) as u32 },
    )
}

/// The scene builder's count of model instances, as the merge adds it to
/// the model indices of the second scene.
pub open spec fn instance_shift(model_instances: Seq<usize>) -> u32 {
    sum_usize(model_instances) as u32
}

/// The transforms `block` with each of the first `k` followed by `n` copies
/// of it for the new model instances `base`, `base + 1`, ...; unchanged when
/// there are no new instances.
pub open spec fn expanded2<M>(block: Seq<LocalTransform<M>>, k: int, n: int, base: int) -> Seq<
    LocalTransform<M>,
> {
    if n == 0 {
        block
    } else {
        expanded_groups(block, 1, n, base, k) + block.subrange(k, block.len() as int)
    }
}

/// `n` new instances of model `mi`, whose mesh instance counts are
/// `mesh_instances`, can be added to the local transforms without failing:
/// the ranges that are read and replaced lie within the transforms, and
/// every count and offset fits.
pub open spec fn can_add_local2<M>(d: InstanceData2<M>, mesh_instances: Seq<u32>, mi: int, n: int) -> bool {
    let k = sum_u32(mesh_instances);
    let c = d.model_instances@[mi] as int;
    let o = d.instance_local_offsets@[mi] as int;
    let len = d.local_transform_data@.len();
    &&& 0 <= mi < d.model_instances@.len()
    &&& mi < d.instance_local_offsets@.len()
    &&& k <= u32::MAX
    &&& k * c <= usize::MAX
    &&& o <= k * c <= len
    &&& o <= k <= len
    &&& (n > 0 ==> k <= k * c - o)
    &&& k * (n + 1) <= usize::MAX
    &&& (n > 0 ==> c + n - 1 <= usize::MAX)
    &&& len + k * c + k * n <= usize::MAX
    &&& forall|q: int|
        o <= q < d.instance_local_offsets@.len() ==> #[trigger] d.instance_local_offsets@[q] + k * n
            <= usize::MAX
}

/// The local transforms after `n` instances of model `mi` are added.
pub open spec fn local_after2<M>(d: InstanceData2<M>, mesh_instances: Seq<u32>, mi: int, n: int) -> Seq<
    LocalTransform<M>,
> {
    let k = sum_u32(mesh_instances);
    let c = d.model_instances@[mi] as int;
    let o = d.instance_local_offsets@[mi] as int;
    let local = d.local_transform_data@;
    local.subrange(0, o) + expanded2(local.subrange(o, k * c), k, n, c) + local.subrange(
        k,
        local.len() as int,
    )
}

/// The offsets after `n` instances of model `mi` are added: every offset
/// from the position given by the model's offset on grows by the number of
/// new transforms.
pub open spec fn offsets_after2<M>(d: InstanceData2<M>, mesh_instances: Seq<u32>, mi: int, n: int) -> Seq<
    usize,
> {
    let k = sum_u32(mesh_instances);
    let o = d.instance_local_offsets@[mi] as int;
    Seq::new(
        d.instance_local_offsets@.len(),
        |q: int|
            if q >= o {
                (d.instance_local_offsets@[q] + k * n) as usize
            } else {
                d.instance_local_offsets@[q]
            },
    )
}

/// The global transforms after instances of model `mi` with the global
/// transforms `ts` are added: `ts` goes in at the position given by the
/// model's instance count.
pub open spec fn global_after2<M>(d: InstanceData2<M>, mi: int, ts: Seq<M>) -> Seq<M> {
    let at = d.model_instances@[mi] as int;
    d.global_transform_data@.subrange(0, at) + ts + d.global_transform_data@.subrange(
        at,
        d.global_transform_data@.len() as int,
    )
}

/// The global transforms of instances of model `mi` can be added.
pub open spec fn can_add_global2<M>(d: InstanceData2<M>, mi: int, n: int) -> bool {
    &&& 0 <= mi < d.model_instances@.len()
    &&& sum_usize(d.model_instances@.subrange(0, mi)) <= usize::MAX
    &&& d.model_instances@[mi] <= d.global_transform_data@.len()
    &&& d.global_transform_data@.len() + n <= usize::MAX
    &&& d.model_instances@[mi] + n <= usize::MAX
}

impl<M: Copy> InstanceData2<M> {
    /// Instance data from its parts; `model_mesh_offsets` are the offsets of
    /// the models' local transforms.
    pub fn new(
        model_instances: Vec<usize>,
        model_mesh_offsets: Vec<usize>,
        local_transform_data: Vec<LocalTransform<M>>,
        global_transform_data: Vec<M>,
    ) -> (r: Self)
        ensures
            r.model_instances@ == model_instances@,
            r.instance_local_offsets@ == model_mesh_offsets@,
            r.local_transform_data@ == local_transform_data@,
            r.global_transform_data@ == global_transform_data@,
    {
        Self {
            model_instances,
            instance_local_offsets: model_mesh_offsets,
            local_transform_data,
            global_transform_data,
        }
    }

    /// Inserts the global transforms of the new instances at the position
    /// given by the model's instance count, and raises that count.
    fn add_new_instances_global_data(&mut self, model_index: usize, global_transforms: Vec<M>) -> (r:
        Result<(), InitializationError>)
        requires
            model_index < old(self).model_instances@.len(),
            sum_usize(old(self).model_instances@.subrange(0, model_index as int)) <= usize::MAX,
            old(self).model_instances@[model_index as int] <= old(self).global_transform_data@.len(),
            old(self).global_transform_data@.len() + global_transforms@.len() <= usize::MAX,
            old(self).model_instances@[model_index as int] + global_transforms@.len() <= usize::MAX,
        ensures
            r is Ok,
            ({
                let at = old(self).model_instances@[model_index as int] as int;
                final(self).global_transform_data@ == old(self).global_transform_data@.subrange(0, at)
                    + global_transforms@ + old(self).global_transform_data@.subrange(
                    at,
                    old(self).global_transform_data@.len() as int,
                )
            }),
            final(self).model_instances@ == old(self).model_instances@.update(
                model_index as int,
                (old(self).model_instances@[model_index as int] + global_transforms@.len()) as usize,
            ),
            final(self).local_transform_data@ == old(self).local_transform_data@,
            final(self).instance_local_offsets@ == old(self).instance_local_offsets@,
    {
        let new_instance_count = global_transforms.len();
        let mut offset_start: usize = 0;
        let mut i: usize = 0;
        while i < model_index
            invariant
                i <= model_index,
                model_index < self.model_instances@.len(),
                offset_start == sum_usize(self.model_instances@.subrange(0, i as int)),
                sum_usize(self.model_instances@.subrange(0, model_index as int)) <= usize::MAX,
            decreases model_index - i,
        {
            proof {
                let prefix = self.model_instances@.subrange(0, model_index as int);
                lemma_sum_usize_prefix(prefix, i + 1);
                assert(prefix.subrange(0, i + 1) =~= self.model_instances@.subrange(0, i + 1));
                assert(self.model_instances@.subrange(0, i + 1).drop_last() =~= self.model_instances@.subrange(
                    0,
                    i as int,
                ));
            }
            offset_start += self.model_instances[i];
            i += 1;
        }
        let offset_end = self.model_instances[model_index];
        let mut tail = self.global_transform_data.split_off(offset_end);
        let mut inserted = global_transforms;
        self.global_transform_data.append(&mut inserted);
        self.global_transform_data.append(&mut tail);
        self.model_instances.set(model_index, offset_end + new_instance_count);
        Ok(())
    }

    /// Adds `new_instance_count` copies after each of the model's first
    /// mesh instance transforms, as [`expanded2`] says, over the transforms
    /// from the model's offset to its mesh instance count times its instance
    /// count; puts them in place of the transforms from the model's offset to
    /// its mesh instance count; and raises every offset from the position
    /// given by the model's offset on by the number of new transforms.
    fn add_new_instances_local_data<N>(
        &mut self,
        model_index: usize,
        new_instance_count: usize,
        models: &Vec<GModel<N>>,
    ) -> (r: Result<(), InitializationError>)
        requires
            model_index < models@.len(),
            can_add_local2(
                *old(self),
                models@[model_index as int].mesh_instances@,
                model_index as int,
                new_instance_count as int,
            ),
        ensures
            r is Ok,
            ({
                let k = sum_u32(models@[model_index as int].mesh_instances@);
                let c = old(self).model_instances@[model_index as int] as int;
                let o = old(self).instance_local_offsets@[model_index as int] as int;
                let local = old(self).local_transform_data@;
                let n = new_instance_count as int;
                &&& final(self).local_transform_data@ == local.subrange(0, o) + expanded2(
                    local.subrange(o, k * c),
                    k,
                    n,
                    c,
                ) + local.subrange(k, local.len() as int)
                &&& final(self).instance_local_offsets@ == Seq::new(
                    old(self).instance_local_offsets@.len(),
                    |q: int|
                        if q >= o {
                            (old(self).instance_local_offsets@[q] + k * n) as usize
                        } else {
                            old(self).instance_local_offsets@[q]
                        },
                )
            }),
            final(self).model_instances@ == old(self).model_instances@,
            final(self).global_transform_data@ == old(self).global_transform_data@,
    {
        let ghost old_local = self.local_transform_data@;
        let ghost old_offsets = self.instance_local_offsets@;
        let n = new_instance_count;
        let mesh_instances = &models[model_index].mesh_instances;
        let c = self.model_instances[model_index];
        let k = total_u32(mesh_instances) as usize;
        let o = self.instance_local_offsets[model_index];
        proof {
            lemma_sum_u32_nonneg(mesh_instances@);
        }
        let slice_end = k * c;
        let ghost block = old_local.subrange(o as int, slice_end as int);
        let mut slice = vstd::slice::slice_to_vec(
            vstd::slice::slice_subrange(self.local_transform_data.as_slice(), o, slice_end),
        );
        assert(slice@ == block);
        let mut offset: usize = 0;
        let ghost mut j: int = 0;
        let count_len = mesh_instances.len();
        let mut m: usize = 0;
        while m < count_len
            invariant
                m <= count_len,
                count_len == mesh_instances@.len(),
                sum_u32(mesh_instances@) == k,
                k <= u32::MAX,
                j == sum_u32(mesh_instances@.subrange(0, m as int)),
                0 <= j <= k,
                offset == j * (n + 1),
                block.len() == slice_end - o,
                n > 0 ==> k <= block.len(),
                k * (n + 1) <= usize::MAX,
                n > 0 ==> c + n - 1 <= usize::MAX,
                n == 0 ==> slice@ == block,
                n > 0 ==> slice@ == expanded_groups(block, 1, n as int, c as int, j)
                    + block.subrange(j, block.len() as int),
            decreases count_len - m,
        {
            let count = mesh_instances[m];
            proof {
                lemma_sum_u32_prefix(mesh_instances@, m + 1);
                assert(mesh_instances@.subrange(0, m + 1).drop_last() =~= mesh_instances@.subrange(
                    0,
                    m as int,
                ));
            }
            let mut q: u32 = 0;
            while q < count
                invariant
                    q <= count,
                    j == sum_u32(mesh_instances@.subrange(0, m as int)) + q,
                    sum_u32(mesh_instances@.subrange(0, m + 1)) == sum_u32(
                        mesh_instances@.subrange(0, m as int),
                    ) + count,
                    sum_u32(mesh_instances@.subrange(0, m + 1)) <= k,
                    0 <= j <= k,
                    offset == j * (n + 1),
                    block.len() == slice_end - o,
                    n > 0 ==> k <= block.len(),
                    k * (n + 1) <= usize::MAX,
                    n > 0 ==> c + n - 1 <= usize::MAX,
                    n == 0 ==> slice@ == block,
                    n > 0 ==> slice@ == expanded_groups(block, 1, n as int, c as int, j)
                        + block.subrange(j, block.len() as int),
                decreases count - q,
            {
                proof {
                    assert(j < k);
                    assert((j + 1) * (n + 1) <= k * (n + 1)) by (nonlinear_arith)
                        requires
                            j < k,
                            n + 1 >= 0,
                    ;
                    assert(j * (n + 1) + n + 1 == (j + 1) * (n + 1)) by (nonlinear_arith);
                }
                if n > 0 {
                    proof {
                        lemma_expanded_len(block, 1, n as int, c as int, j);
                        let e = expanded_groups(block, 1, n as int, c as int, j);
                        let s = slice@;
                        assert(s.subrange(0, offset + 1) =~= e + block.subrange(j, j + 1));
                        assert(s.subrange(offset + 1, s.len() as int) =~= block.subrange(
                            j + 1,
                            block.len() as int,
                        ));
                        assert(s[offset as int] == block[j]);
                        assert(j * 1 == j && (j + 1) * 1 == j + 1);
                    }
                    slice = InstanceData::<M>::add_mesh_transforms(n, offset, c, 1, slice);
                    proof {
                        assert(slice@ =~= expanded_groups(block, 1, n as int, c as int, j + 1)
                            + block.subrange(j + 1, block.len() as int));
                    }
                }
                proof {
                    j = j + 1;
                }
                offset += n + 1;
                q += 1;
            }
            m += 1;
        }
        proof {
            assert(mesh_instances@.subrange(0, count_len as int) =~= mesh_instances@);
            assert(j == k);
            if n > 0 {
                assert(slice@ == expanded2(block, k as int, n as int, c as int));
            }
        }
        let mut tail = self.local_transform_data.split_off(k);
        self.local_transform_data.truncate(o);
        self.local_transform_data.append(&mut slice);
        self.local_transform_data.append(&mut tail);
        proof {
            assert(self.local_transform_data@ =~= old_local.subrange(0, o as int) + expanded2(
                block,
                k as int,
                n as int,
                c as int,
            ) + old_local.subrange(k as int, old_local.len() as int));
        }
        let num_new_instances = k * n;
        let offsets_len = self.instance_local_offsets.len();
        let mut q: usize = o;
        while q < offsets_len
            invariant
                o <= q,
                offsets_len == old_offsets.len(),
                self.instance_local_offsets@.len() == offsets_len,
                num_new_instances == k * n,
                o == old_offsets[model_index as int],
                forall|p: int|
                    o <= p < old_offsets.len() ==> #[trigger] old_offsets[p] + k * n <= usize::MAX,
                forall|p: int|
                    0 <= p < offsets_len ==> #[trigger] self.instance_local_offsets@[p] == if o <= p
                        < q {
                        (old_offsets[p] + k * n) as usize
                    } else {
                        old_offsets[p]
                    },
                self.local_transform_data@ == old_local.subrange(0, o as int) + expanded2(
                    block,
                    k as int,
                    n as int,
                    c as int,
                ) + old_local.subrange(k as int, old_local.len() as int),
                self.model_instances@ == old(self).model_instances@,
                self.global_transform_data@ == old(self).global_transform_data@,
            decreases offsets_len - q,
        {
            let value = self.instance_local_offsets[q];
            self.instance_local_offsets.set(q, value + num_new_instances);
            q += 1;
        }
        proof {
            assert(self.instance_local_offsets@ =~= Seq::new(
                old_offsets.len(),
                |p: int|
                    if p >= o {
                        (old_offsets[p] + k * n) as usize
                    } else {
                        old_offsets[p]
                    },
            ));
        }
        Ok(())
    }

    /// Adds one instance of model `model_index` for each global transform:
    /// the local transforms and offsets change as [`local_after2`] and
    /// [`offsets_after2`] say, the global transforms as [`global_after2`]
    /// says, and the model's instance count grows by their number.
    pub fn add_model_instance<N>(
        &mut self,
        models: &Vec<GModel<N>>,
        model_index: usize,
        global_transforms: Vec<M>,
    ) -> (r: Result<(), InitializationError>)
        requires
            model_index < models@.len(),
            can_add_local2(
                *old(self),
                models@[model_index as int].mesh_instances@,
                model_index as int,
                global_transforms@.len() as int,
            ),
            can_add_global2(*old(self), model_index as int, global_transforms@.len() as int),
        ensures
            r is Ok,
            final(self).local_transform_data@ == local_after2(
                *old(self),
                models@[model_index as int].mesh_instances@,
                model_index as int,
                global_transforms@.len() as int,
            ),
            final(self).instance_local_offsets@ == offsets_after2(
                *old(self),
                models@[model_index as int].mesh_instances@,
                model_index as int,
                global_transforms@.len() as int,
            ),
            final(self).global_transform_data@ == global_after2(
                *old(self),
                model_index as int,
                global_transforms@,
            ),
            final(self).model_instances@ == old(self).model_instances@.update(
                model_index as int,
                (old(self).model_instances@[model_index as int] + global_transforms@.len()) as usize,
            ),
    {
        let count = global_transforms.len();
        let local_result = self.add_new_instances_local_data(model_index, count, models);
        let global_result = self.add_new_instances_global_data(model_index, global_transforms);
        Ok(())
    }

    /// Joins the instance data of a second scene after this one: its model
    /// indices are raised by this scene's number of model instances, and
    /// every list is the concatenation of the two.
    pub fn merge(self, other: Self) -> (r: Self)
        requires
            sum_usize(self.model_instances@) <= usize::MAX,
            forall|i: int|
                0 <= i < other.local_transform_data@.len() ==> (
                #[trigger] other.local_transform_data@[i]).model_index + instance_shift(
                    self.model_instances@,
                ) <= u32::MAX,
        ensures
            r.model_instances@ == self.model_instances@ + other.model_instances@,
            r.instance_local_offsets@ == self.instance_local_offsets@ + other.instance_local_offsets@,
            r.local_transform_data@ == self.local_transform_data@ + shifted(
                other.local_transform_data@,
                instance_shift(self.model_instances@),
            ),
            r.global_transform_data@ == self.global_transform_data@ + other.global_transform_data@,
    {
        let number_of_models = total_usize(&self.model_instances);
        let shift = #[verifier::truncate]
        (number_of_models as u32);
        let mut a = self;
        let mut b = other;
        let ghost b_local = b.local_transform_data@;
        let n = b.local_transform_data.len();
        let mut i: usize = 0;
        while i < n
            invariant
                i <= n,
                n == b_local.len(),
                b.local_transform_data@.len() == n,
                shift == instance_shift(a.model_instances@),
                a.model_instances@ == self.model_instances@,
                a.instance_local_offsets@ == self.instance_local_offsets@,
                a.local_transform_data@ == self.local_transform_data@,
                a.global_transform_data@ == self.global_transform_data@,
                b.model_instances@ == other.model_instances@,
                b.instance_local_offsets@ == other.instance_local_offsets@,
                b.global_transform_data@ == other.global_transform_data@,
                b_local == other.local_transform_data@,
                forall|j: int|
                    0 <= j < n ==> (#[trigger] b_local[j]).model_index + shift <= u32::MAX,
                forall|j: int|
                    0 <= j < n ==> #[trigger] b.local_transform_data@[j] == if j < i {
                        shifted(b_local, shift)[j]
                    } else {
                        b_local[j]
                    },
            decreases n - i,
        {
            let mut t = b.local_transform_data[i];
            t.model_index = t.model_index + shift;
            b.local_transform_data.set(i, t);
            i += 1;
        }
        proof {
            assert(b.local_transform_data@ =~= shifted(b_local, shift));
        }
        a.model_instances.append(&mut b.model_instances);
        a.instance_local_offsets.append(&mut b.instance_local_offsets);
        a.local_transform_data.append(&mut b.local_transform_data);
        a.global_transform_data.append(&mut b.global_transform_data);
        a
    }
}

} // verus!
