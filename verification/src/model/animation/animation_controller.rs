//! Which animations are playing: one queue of animation instances per model,
//! the number of instances of each queue that finished last frame, and the
//! number of instances in all queues.
use crate::model::animation::animation::{AnimationFrame, AnimationInstance};
use crate::model::model::GModel;
use crate::scene::instances::slice_views;
use std::collections::VecDeque;
use vstd::prelude::*;

verus! {

/// Keeps track of the animations that are playing. `I` is the type of an
/// animation instance, `K` that of the skins' inverse bind matrices.
pub struct SceneAnimationController<I, K> {
    /// For each model, how many instances at the front of its queue finished.
    pub dead_animations: Vec<usize>,
    /// For each model, its playing instances, oldest first.
    pub active_animations: Vec<VecDeque<I>>,
    /// The number of instances in all queues.
    pub active_animation_count: usize,
    pub skin_ibms: K,
}

/// The number of instances in the first `k` queues.
pub open spec fn queued<I>(queues: Seq<VecDeque<I>>, k: int) -> int
    decreases k,
{
    if k <= 0 {
        0
    } else {
        queued(queues, k - 1) + queues[k - 1]@.len()
    }
}

proof fn lemma_queued_same<I>(a: Seq<VecDeque<I>>, b: Seq<VecDeque<I>>, k: int)
    requires
        0 <= k <= a.len(),
        k <= b.len(),
        forall|t: int| 0 <= t < k ==> a[t]@.len() == b[t]@.len(),
    ensures
        queued(a, k) == queued(b, k),
    decreases k,
{
    if k > 0 {
        lemma_queued_same(a, b, k - 1);
    }
}

proof fn lemma_queued_change<I>(a: Seq<VecDeque<I>>, p: int, q: VecDeque<I>, k: int)
    requires
        0 <= p < a.len(),
        0 <= k <= a.len(),
    ensures
        queued(a.update(p, q), k) == queued(a, k) + if k > p {
            q@.len() - a[p]@.len()
        } else {
            0
        },
    decreases k,
{
    if k > 0 {
        lemma_queued_change(a, p, q, k - 1);
    }
}

proof fn lemma_queue_within<I>(a: Seq<VecDeque<I>>, p: int, k: int)
    requires
        0 <= p < k <= a.len(),
    ensures
        a[p]@.len() <= queued(a, k),
        0 <= queued(a, k),
    decreases k,
{
    if k > p + 1 {
        lemma_queue_within(a, p, k - 1);
    } else {
        lemma_queued_nonneg(a, p);
    }
}

proof fn lemma_queued_nonneg<I>(a: Seq<VecDeque<I>>, k: int)
    ensures
        0 <= queued(a, k),
    decreases k,
{
    if k > 0 {
        lemma_queued_nonneg(a, k - 1);
    }
}

/// Removes the first `count` instances of the queue.
fn drop_front<I>(queue: &mut VecDeque<I>, count: usize)
    requires
        count <= old(queue)@.len(),
    ensures
        final(queue)@ == old(queue)@.skip(count as int),
{
    let ghost start = queue@;
    let mut k: usize = 0;
    while k < count
        invariant
            k <= count,
            count <= start.len(),
            queue@ == start.skip(k as int),
        decreases count - k,
    {
        let _ = queue.pop_front();
        proof {
            assert(start.skip(k as int).subrange(1, start.len() - k) =~= start.skip(k + 1));
        }
        k += 1;
    }
}

impl<I, K> SceneAnimationController<I, K> {
    /// One queue and one finished count per model; the count of instances is
    /// the number of instances in all queues; no queue has more finished
    /// instances than it holds.
    pub open spec fn wf(&self) -> bool {
        &&& self.dead_animations@.len() == self.active_animations@.len()
        &&& self.active_animation_count == queued(
            self.active_animations@,
            self.active_animations@.len() as int,
        )
        &&& forall|i: int|
            0 <= i < self.dead_animations@.len() ==> #[trigger] self.dead_animations@[i]
                <= self.active_animations@[i]@.len()
    }

    /// A controller for `model_no` models, with nothing playing.
    pub fn new(model_no: usize, skin_ibms: K) -> (r: Self)
        ensures
            r.wf(),
            r.active_animations@.len() == model_no,
            r.dead_animations@ == Seq::new(model_no as nat, |i: int| 0usize),
            forall|i: int| 0 <= i < model_no ==> (#[trigger] r.active_animations@[i])@.len() == 0,
            r.active_animation_count == 0,
            r.skin_ibms == skin_ibms,
    {
        let mut active_animations: Vec<VecDeque<I>> = Vec::new();
        let mut dead_animations: Vec<usize> = Vec::new();
        let mut i: usize = 0;
        while i < model_no
            invariant
                i <= model_no,
                active_animations@.len() == i,
                dead_animations@ == Seq::new(i as nat, |j: int| 0usize),
                forall|j: int| 0 <= j < i ==> (#[trigger] active_animations@[j])@.len() == 0,
                queued(active_animations@, i as int) == 0,
            decreases model_no - i,
        {
            let ghost before = active_animations@;
            active_animations.push(VecDeque::new());
            dead_animations.push(0);
            proof {
                lemma_queued_same(active_animations@, before, i as int);
                assert(dead_animations@ =~= Seq::new((i + 1) as nat, |j: int| 0usize));
            }
            i += 1;
        }
        Self { dead_animations, active_animations, active_animation_count: 0, skin_ibms }
    }

    /// Starts `instance` on model `model_index`: it joins the back of the
    /// model's queue.
    pub fn push_animation(&mut self, model_index: usize, instance: I)
        requires
            old(self).wf(),
            model_index < old(self).active_animations@.len(),
            old(self).active_animation_count < usize::MAX,
        ensures
            final(self).wf(),
            final(self).active_animations@ == old(self).active_animations@.update(
                model_index as int,
                final(self).active_animations@[model_index as int],
            ),
            final(self).active_animations@[model_index as int]@ == old(
                self,
            ).active_animations@[model_index as int]@.push(instance),
            final(self).dead_animations@ == old(self).dead_animations@,
            final(self).active_animation_count == old(self).active_animation_count + 1,
            final(self).skin_ibms == old(self).skin_ibms,
    {
        let ghost before = self.active_animations@;
        let mut queue = self.active_animations.remove(model_index);
        queue.push_back(instance);
        self.active_animations.insert(model_index, queue);
        proof {
            assert(self.active_animations@ =~= before.update(model_index as int, queue));
            lemma_queued_change(before, model_index as int, queue, before.len() as int);
        }
        self.active_animation_count = self.active_animation_count + 1;
    }

    /// Marks one more instance of model `model_index` as finished; it leaves
    /// its queue at the next [`Self::retire_dead_animations`].
    pub fn mark_done(&mut self, model_index: usize)
        requires
            old(self).wf(),
            model_index < old(self).active_animations@.len(),
            old(self).dead_animations@[model_index as int] < old(
                self,
            ).active_animations@[model_index as int]@.len(),
        ensures
            final(self).wf(),
            final(self).dead_animations@ == old(self).dead_animations@.update(
                model_index as int,
                (old(self).dead_animations@[model_index as int] + 1) as usize,
            ),
            final(self).active_animations@ == old(self).active_animations@,
            final(self).active_animation_count == old(self).active_animation_count,
            final(self).skin_ibms == old(self).skin_ibms,
    {
        proof {
            lemma_queue_within(
                self.active_animations@,
                model_index as int,
                self.active_animations@.len() as int,
            );
        }
        let count = self.dead_animations[model_index];
        self.dead_animations.set(model_index, count + 1);
    }

    /// Removes from the front of each queue the instances that finished,
    /// and forgets them.
    pub fn retire_dead_animations(&mut self)
        requires
            old(self).wf(),
        ensures
            final(self).wf(),
            final(self).active_animations@.len() == old(self).active_animations@.len(),
            forall|i: int|
                0 <= i < old(self).active_animations@.len() ==> final(self).active_animations@[i]@
                    == #[trigger] old(self).active_animations@[i]@.skip(
                    old(self).dead_animations@[i] as int,
                ),
            final(self).dead_animations@ == Seq::new(
                old(self).dead_animations@.len(),
                |i: int| 0usize,
            ),
            final(self).skin_ibms == old(self).skin_ibms,
    {
        let ghost old_active = self.active_animations@;
        let ghost old_dead = self.dead_animations@;
        let n = self.dead_animations.len();
        let mut idx: usize = 0;
        while idx < n
            invariant
                idx <= n,
                n == old_dead.len(),
                old_dead.len() == old_active.len(),
                self.dead_animations@.len() == n,
                self.active_animations@.len() == n,
                forall|i: int|
                    0 <= i < old_dead.len() ==> #[trigger] old_dead[i] <= old_active[i]@.len(),
                forall|i: int|
                    0 <= i < idx ==> (#[trigger] self.active_animations@[i])@ == old_active[i]@.skip(
                        old_dead[i] as int,
                    ) && self.dead_animations@[i] == 0,
                forall|i: int|
                    idx <= i < n ==> #[trigger] self.active_animations@[i] == old_active[i]
                        && self.dead_animations@[i] == old_dead[i],
                self.active_animation_count == queued(self.active_animations@, n as int),
                self.skin_ibms == old(self).skin_ibms,
            decreases n - idx,
        {
            let count = self.dead_animations[idx];
            let ghost before = self.active_animations@;
            let mut queue = self.active_animations.remove(idx);
            proof {
                lemma_queue_within(before, idx as int, n as int);
            }
            drop_front(&mut queue, count);
            self.active_animations.insert(idx, queue);
            proof {
                assert(self.active_animations@ =~= before.update(idx as int, queue));
                lemma_queued_change(before, idx as int, queue, n as int);
            }
            self.active_animation_count = self.active_animation_count - count;
            let ghost dead_before = self.dead_animations@;
            self.dead_animations.set(idx, 0);
            proof {
                assert forall|i: int| 0 <= i <= idx implies (#[trigger] self.active_animations@[i])@
                    == old_active[i]@.skip(old_dead[i] as int) && self.dead_animations@[i] == 0 by {
                    if i < idx {
                        assert(before[i] == self.active_animations@[i]);
                        assert(dead_before[i] == self.dead_animations@[i]);
                    }
                }
                assert forall|i: int| idx < i < n implies #[trigger] self.active_animations@[i]
                    == old_active[i] && self.dead_animations@[i] == old_dead[i] by {
                    assert(before[i] == self.active_animations@[i]);
                    assert(dead_before[i] == self.dead_animations@[i]);
                }
            }
            idx += 1;
        }
        proof {
            assert forall|i: int| 0 <= i < n implies self.dead_animations@[i] == 0 by {
                assert(self.active_animations@[i]@ == old_active[i]@.skip(old_dead[i] as int));
            }
            assert(self.dead_animations@ =~= Seq::new(n as nat, |i: int| 0usize));
        }
    }

    /// Whether any instance is playing.
    pub fn has_active_animations(&self) -> (r: bool)
        ensures
            r == (self.active_animation_count != 0),
    {
        self.active_animation_count != 0
    }
}

/// The offsets of the instances of the first `k` queues, queue after queue.
pub open spec fn frame_offsets<M, S>(qs: Seq<VecDeque<AnimationInstance<M, S>>>, k: int) -> Seq<usize>
    decreases k,
{
    if k <= 0 {
        seq![]
    } else {
        frame_offsets(qs, k - 1) + qs[k - 1]@.map_values(
            |a: AnimationInstance<M, S>| a.model_instance_offset,
        )
    }
}

/// The mesh transforms of the instances of the first `k` queues.
pub open spec fn frame_meshes<M, S>(qs: Seq<VecDeque<AnimationInstance<M, S>>>, k: int) -> Seq<Seq<M>>
    decreases k,
{
    if k <= 0 {
        seq![]
    } else {
        frame_meshes(qs, k - 1) + qs[k - 1]@.map_values(|a: AnimationInstance<M, S>| a.mesh_transforms@)
    }
}

/// The joint transforms of the instances of the first `k` queues.
pub open spec fn frame_joints<M, S>(qs: Seq<VecDeque<AnimationInstance<M, S>>>, k: int) -> Seq<Seq<M>>
    decreases k,
{
    if k <= 0 {
        seq![]
    } else {
        frame_joints(qs, k - 1) + qs[k - 1]@.map_values(|a: AnimationInstance<M, S>| a.joint_transforms@)
    }
}

/// The joint indices of the model of queue `k`.
pub open spec fn model_joint_indices<N>(models: Seq<GModel<N>>, k: int) -> Seq<usize> {
    models[k].animation_data.unwrap().joint_animation_data.joint_indices@
}

/// For each instance of the first `k` queues, the joint indices of its
/// model.
pub open spec fn frame_joint_ids<M, S, N>(
    qs: Seq<VecDeque<AnimationInstance<M, S>>>,
    models: Seq<GModel<N>>,
    k: int,
) -> Seq<Seq<usize>>
    decreases k,
{
    if k <= 0 {
        seq![]
    } else {
        frame_joint_ids(qs, models, k - 1) + Seq::new(
            qs[k - 1]@.len(),
            |j: int| model_joint_indices(models, k - 1),
        )
    }
}

impl<M, S, K> SceneAnimationController<AnimationInstance<M, S>, K> {
    /// The frame that the playing instances make, model after model and, for
    /// each model, oldest first: for each instance the offset of its local
    /// transforms, its mesh transforms, its joint transforms and the joint
    /// indices of its model.
    pub fn animation_frame<'a, N>(&'a self, models: &'a Vec<GModel<N>>) -> (r: AnimationFrame<'a, M>)
        requires
            forall|idx: int|
                0 <= idx < self.active_animations@.len() && (
                #[trigger] self.active_animations@[idx])@.len() > 0 ==> idx < models@.len()
                    && models@[idx].animation_data is Some,
        ensures
            ({
                let qs = self.active_animations@;
                let n = qs.len() as int;
                &&& r.lt_offsets@ == frame_offsets(qs, n)
                &&& slice_views(r.mesh_transform_slices@) == frame_meshes(qs, n)
                &&& slice_views(r.joint_transform_slices@) == frame_joints(qs, n)
                &&& slice_views(r.joint_ids@) == frame_joint_ids(qs, models@, n)
            }),
    {
        let ghost qs = self.active_animations@;
        let mut frame = AnimationFrame {
            lt_offsets: Vec::new(),
            mesh_transform_slices: Vec::new(),
            joint_ids: Vec::new(),
            joint_transform_slices: Vec::new(),
        };
        let n = self.active_animations.len();
        let mut idx: usize = 0;
        proof {
            assert(slice_views(frame.mesh_transform_slices@) =~= Seq::<Seq<M>>::empty());
            assert(slice_views(frame.joint_transform_slices@) =~= Seq::<Seq<M>>::empty());
            assert(slice_views(frame.joint_ids@) =~= Seq::<Seq<usize>>::empty());
        }
        while idx < n
            invariant
                idx <= n,
                n == qs.len(),
                qs == self.active_animations@,
                forall|q: int|
                    0 <= q < qs.len() && (#[trigger] qs[q])@.len() > 0 ==> q < models@.len()
                        && models@[q].animation_data is Some,
                frame.lt_offsets@ == frame_offsets(qs, idx as int),
                slice_views(frame.mesh_transform_slices@) == frame_meshes(qs, idx as int),
                slice_views(frame.joint_transform_slices@) == frame_joints(qs, idx as int),
                slice_views(frame.joint_ids@) == frame_joint_ids(qs, models@, idx as int),
            decreases n - idx,
        {
            let queue = &self.active_animations[idx];
            let count = queue.len();
            let ghost q = queue@;
            let ghost offsets0 = frame.lt_offsets@;
            let ghost meshes0 = slice_views(frame.mesh_transform_slices@);
            let ghost joints0 = slice_views(frame.joint_transform_slices@);
            let ghost ids0 = slice_views(frame.joint_ids@);
            let mut j: usize = 0;
            while j < count
                invariant
                    j <= count,
                    count == q.len(),
                    q == queue@,
                    queue == &self.active_animations[idx as int],
                    idx < n,
                    n == qs.len(),
                    qs == self.active_animations@,
                    count > 0 ==> idx < models@.len() && models@[idx as int].animation_data is Some,
                    frame.lt_offsets@ == offsets0 + q.take(j as int).map_values(
                        |a: AnimationInstance<M, S>| a.model_instance_offset,
                    ),
                    slice_views(frame.mesh_transform_slices@) == meshes0 + q.take(j as int).map_values(
                        |a: AnimationInstance<M, S>| a.mesh_transforms@,
                    ),
                    slice_views(frame.joint_transform_slices@) == joints0 + q.take(j as int).map_values(
                        |a: AnimationInstance<M, S>| a.joint_transforms@,
                    ),
                    slice_views(frame.joint_ids@) == ids0 + Seq::new(
                        j as nat,
                        |t: int| model_joint_indices(models@, idx as int),
                    ),
                decreases count - j,
            {
                let instance = &queue[j];
                let joint_indices = match &models[idx].animation_data {
                    Some(data) => data.joint_animation_data.joint_indices.as_slice(),
                    None => {
                        proof {
                            assert(false);
                        }
                        return frame;
                    },
                };
                let ghost before_m = frame.mesh_transform_slices@;
                let ghost before_t = frame.joint_transform_slices@;
                let ghost before_i = frame.joint_ids@;
                frame.lt_offsets.push(instance.model_instance_offset);
                frame.mesh_transform_slices.push(instance.mesh_transforms.as_slice());
                frame.joint_transform_slices.push(instance.joint_transforms.as_slice());
                frame.joint_ids.push(joint_indices);
                proof {
                    assert(q.take(j + 1) =~= q.take(j as int).push(q[j as int]));
                    assert(slice_views(frame.mesh_transform_slices@) =~= slice_views(before_m).push(
                        q[j as int].mesh_transforms@,
                    ));
                    assert(slice_views(frame.joint_transform_slices@) =~= slice_views(before_t).push(
                        q[j as int].joint_transforms@,
                    ));
                    assert(slice_views(frame.joint_ids@) =~= slice_views(before_i).push(
                        model_joint_indices(models@, idx as int),
                    ));
                    assert(frame.lt_offsets@ =~= offsets0 + q.take(j + 1).map_values(
                        |a: AnimationInstance<M, S>| a.model_instance_offset,
                    ));
                    assert(slice_views(frame.mesh_transform_slices@) =~= meshes0 + q.take(j + 1).map_values(
                        |a: AnimationInstance<M, S>| a.mesh_transforms@,
                    ));
                    assert(slice_views(frame.joint_transform_slices@) =~= joints0 + q.take(j + 1).map_values(
                        |a: AnimationInstance<M, S>| a.joint_transforms@,
                    ));
                    assert(slice_views(frame.joint_ids@) =~= ids0 + Seq::new(
                        (j + 1) as nat,
                        |t: int| model_joint_indices(models@, idx as int),
                    ));
                }
                j += 1;
            }
            proof {
                assert(q.take(count as int) =~= q);
                assert(qs[idx as int] == *queue);
                assert(frame.lt_offsets@ =~= frame_offsets(qs, idx + 1));
                assert(slice_views(frame.mesh_transform_slices@) =~= frame_meshes(qs, idx + 1));
                assert(slice_views(frame.joint_transform_slices@) =~= frame_joints(qs, idx + 1));
                assert(slice_views(frame.joint_ids@) =~= frame_joint_ids(qs, models@, idx + 1));
            }
            idx += 1;
        }
        frame
    }
}

} // verus!
