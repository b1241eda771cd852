//! Sums of instance counts and the offsets of each model's local transforms.
use crate::loader::loader::GModel2;
use vstd::prelude::*;

verus! {

/// The sum of a sequence of `u32` counts.
pub open spec fn sum_u32(s: Seq<u32>) -> int
    decreases s.len(),
{
    if s.len() == 0 {
        0
    } else {
        sum_u32(s.drop_last()) + s.last()
    }
}

/// The sum of a sequence of `usize` counts.
pub open spec fn sum_usize(s: Seq<usize>) -> int
    decreases s.len(),
{
    if s.len() == 0 {
        0
    } else {
        sum_usize(s.drop_last()) + s.last()
    }
}

pub proof fn lemma_sum_u32_prefix(s: Seq<u32>, i: int)
    requires
        0 <= i <= s.len(),
    ensures
        0 <= sum_u32(s.subrange(0, i)) <= sum_u32(s),
    decreases s.len() - i,
{
    if i < s.len() {
        lemma_sum_u32_prefix(s, i + 1);
        assert(s.subrange(0, i + 1).drop_last() =~= s.subrange(0, i));
    } else {
        assert(s.subrange(0, i) =~= s);
    }
    lemma_sum_u32_nonneg(s.subrange(0, i));
}

pub proof fn lemma_sum_u32_nonneg(s: Seq<u32>)
    ensures
        sum_u32(s) >= 0,
    decreases s.len(),
{
    if s.len() > 0 {
        lemma_sum_u32_nonneg(s.drop_last());
    }
}

pub proof fn lemma_sum_usize_prefix(s: Seq<usize>, i: int)
    requires
        0 <= i <= s.len(),
    ensures
        0 <= sum_usize(s.subrange(0, i)) <= sum_usize(s),
    decreases s.len() - i,
{
    if i < s.len() {
        lemma_sum_usize_prefix(s, i + 1);
        assert(s.subrange(0, i + 1).drop_last() =~= s.subrange(0, i));
    } else {
        assert(s.subrange(0, i) =~= s);
    }
    lemma_sum_usize_nonneg(s.subrange(0, i));
}

pub proof fn lemma_sum_usize_nonneg(s: Seq<usize>)
    ensures
        sum_usize(s) >= 0,
    decreases s.len(),
{
    if s.len() > 0 {
        lemma_sum_usize_nonneg(s.drop_last());
    }
}

/// The sum of the counts, which must fit in a `u32`.
pub fn total_u32(counts: &Vec<u32>) -> (r: u32)
    requires
        sum_u32(counts@) <= u32::MAX,
    ensures
        r == sum_u32(counts@),
{
    let mut total: u32 = 0;
    let mut i: usize = 0;
    while i < counts.len()
        invariant
            i <= counts@.len(),
            total == sum_u32(counts@.subrange(0, i as int)),
            sum_u32(counts@) <= u32::MAX,
        decreases counts@.len() - i,
    {
        proof {
            lemma_sum_u32_prefix(counts@, i + 1);
            assert(counts@.subrange(0, i + 1).drop_last() =~= counts@.subrange(0, i as int));
        }
        total = total + counts[i];
        i += 1;
    }
    proof {
        assert(counts@.subrange(0, i as int) =~= counts@);
    }
    total
}

/// The sum of the counts, which must fit in a `usize`.
pub fn total_usize(counts: &Vec<usize>) -> (r: usize)
    requires
        sum_usize(counts@) <= usize::MAX,
    ensures
        r == sum_usize(counts@),
{
    let mut total: usize = 0;
    let mut i: usize = 0;
    while i < counts.len()
        invariant
            i <= counts@.len(),
            total == sum_usize(counts@.subrange(0, i as int)),
            sum_usize(counts@) <= usize::MAX,
        decreases counts@.len() - i,
    {
        proof {
            lemma_sum_usize_prefix(counts@, i + 1);
            assert(counts@.subrange(0, i + 1).drop_last() =~= counts@.subrange(0, i as int));
        }
        total = total + counts[i];
        i += 1;
    }
    proof {
        assert(counts@.subrange(0, i as int) =~= counts@);
    }
    total
}

/// The offset of the first local transform of model `i`: the local
/// transforms of every earlier model, each model's mesh instance count times
/// its number of instances.
pub open spec fn model_mesh_offset(models: Seq<GModel2>, model_instances: Seq<usize>, i: int) -> int
    decreases i,
{
    if i <= 0 {
        0
    } else {
        model_mesh_offset(models, model_instances, i - 1) + sum_u32(models[i - 1].mesh_instances@)
            * model_instances[i - 1]
    }
}

proof fn lemma_model_mesh_offset_monotone(models: Seq<GModel2>, model_instances: Seq<usize>, i: int, j: int)
    requires
        0 <= i <= j,
    ensures
        model_mesh_offset(models, model_instances, i) <= model_mesh_offset(models, model_instances, j),
    decreases j - i,
{
    if i < j {
        lemma_model_mesh_offset_monotone(models, model_instances, i, j - 1);
        lemma_sum_u32_nonneg(models[j - 1].mesh_instances@);
        assert(sum_u32(models[j - 1].mesh_instances@) * model_instances[j - 1] >= 0) by (nonlinear_arith)
            requires
                sum_u32(models[j - 1].mesh_instances@) >= 0,
                model_instances[j - 1] >= 0,
        ;
    }
}

/// The offset of the first local transform of each model.
pub fn calculate_model_mesh_offsets(models: &Vec<GModel2>, model_instances: &Vec<usize>) -> (r: Vec<
    usize,
>)
    requires
        model_instances@.len() >= models@.len(),
        forall|i: int| 0 <= i < models@.len() ==> sum_u32(#[trigger] models@[i].mesh_instances@) <= u32::MAX,
        model_mesh_offset(models@, model_instances@, models@.len() as int) <= usize::MAX,
    ensures
        r@.len() == models@.len(),
        forall|i: int|
            0 <= i < models@.len() ==> #[trigger] r@[i] == model_mesh_offset(models@, model_instances@, i),
{
    let mut model_mesh_offsets: Vec<usize> = Vec::new();
    let mut sum: usize = 0;
    let n = models.len();
    let mut idx: usize = 0;
    while idx < n
        invariant
            idx <= n,
            n == models@.len(),
            model_instances@.len() >= n,
            forall|i: int| 0 <= i < n ==> sum_u32(#[trigger] models@[i].mesh_instances@) <= u32::MAX,
            model_mesh_offset(models@, model_instances@, n as int) <= usize::MAX,
            sum == model_mesh_offset(models@, model_instances@, idx as int),
            model_mesh_offsets@.len() == idx,
            forall|i: int|
                0 <= i < idx ==> #[trigger] model_mesh_offsets@[i] == model_mesh_offset(
                    models@,
                    model_instances@,
                    i,
                ),
        decreases n - idx,
    {
        model_mesh_offsets.push(sum);
        let model = &models[idx];
        let count = total_u32(&model.mesh_instances);
        proof {
            lemma_model_mesh_offset_monotone(models@, model_instances@, idx + 1, n as int);
            lemma_model_mesh_offset_monotone(models@, model_instances@, idx as int, idx as int);
            lemma_sum_u32_nonneg(models@[idx as int].mesh_instances@);
            assert(count as int * model_instances@[idx as int] <= usize::MAX - sum) by (nonlinear_arith)
                requires
                    sum + count as int * model_instances@[idx as int] <= usize::MAX,
            ;
        }
        sum += (count as usize) * model_instances[idx];
        idx += 1;
    }
    model_mesh_offsets
}

/// The position among all model instances of instance `model_instance_index`
/// of model `model_number`: after every instance of the models before it.
pub fn global_instance_index(
    model_instances: &Vec<usize>,
    model_number: usize,
    model_instance_index: usize,
) -> (r: usize)
    requires
        model_number <= model_instances@.len(),
        sum_usize(model_instances@.subrange(0, model_number as int)) + model_instance_index
            <= usize::MAX,
    ensures
        r == sum_usize(model_instances@.subrange(0, model_number as int)) + model_instance_index,
{
    let mut instance_count: usize = 0;
    let mut idx: usize = 0;
    while idx < model_number
        invariant
            idx <= model_number,
            model_number <= model_instances@.len(),
            instance_count == sum_usize(model_instances@.subrange(0, idx as int)),
            sum_usize(model_instances@.subrange(0, model_number as int)) + model_instance_index
                <= usize::MAX,
        decreases model_number - idx,
    {
        proof {
            let prefix = model_instances@.subrange(0, model_number as int);
            lemma_sum_usize_prefix(prefix, idx + 1);
            assert(prefix.subrange(0, idx + 1) =~= model_instances@.subrange(0, idx + 1));
            assert(model_instances@.subrange(0, idx + 1).drop_last() =~= model_instances@.subrange(
                0,
                idx as int,
            ));
            lemma_sum_usize_nonneg(model_instances@.subrange(0, model_number as int));
        }
        instance_count += model_instances[idx];
        idx += 1;
    }
    proof {
        lemma_sum_usize_nonneg(model_instances@.subrange(0, model_number as int));
    }
    instance_count + model_instance_index
}

} // verus!
